//! Selecting, expanding and acting on rows of the workspace file tree.
//!
//! The tree keeps a primary selection, a multi-selection (built with
//! shift-clicks) and the set of expanded folders.  The caller holds the sets
//! and hands them here as lists; what these functions return is what the tree
//! holds next.
use vstd::prelude::*;
use crate::paths::{path_parent, clean_path, parent_of};
use crate::text::{decimal, push_decimal, str_eq};

verus! {

broadcast use vstd::seq_lib::group_seq_properties;

/// The texts of a list of strings.
pub open spec fn strs(v: Seq<String>) -> Seq<Seq<char>> {
    v.map_values(|s: String| s@)
}

/// Whether a text differs from `x`.
pub open spec fn differs(x: Seq<char>) -> spec_fn(Seq<char>) -> bool {
    |y: Seq<char>| y != x
}

/// Whether a text is one of `v`.
pub open spec fn member_of(v: Seq<Seq<char>>) -> spec_fn(Seq<char>) -> bool {
    |y: Seq<char>| v.contains(y)
}

proof fn lemma_strs_push(v: Seq<String>, s: String)
    ensures
        strs(v.push(s)) == strs(v).push(s@),
{
    assert(strs(v.push(s)) =~= strs(v).push(s@));
}

proof fn lemma_strs_take(v: Seq<String>, i: int)
    requires
        0 <= i < v.len(),
    ensures
        strs(v.take(i + 1)) == strs(v.take(i)).push(v[i]@),
        strs(v).take(i + 1) == strs(v).take(i).push(v[i]@),
{
    assert(strs(v.take(i + 1)) =~= strs(v.take(i)).push(v[i]@));
    assert(strs(v).take(i + 1) =~= strs(v).take(i).push(v[i]@));
}

/// Whether `v` holds a string equal to `x`.
fn list_contains(v: &Vec<String>, x: &str) -> (r: bool)
    ensures
        r == strs(v@).contains(x@),
{
    let mut i: usize = 0;
    while i < v.len()
        invariant
            i <= v@.len(),
            forall|j: int| 0 <= j < i ==> v@[j]@ != x@,
        decreases v.len() - i,
    {
        if str_eq(v[i].as_str(), x) {
            assert(strs(v@)[i as int] == x@);
            return true;
        }
        i += 1;
    }
    proof {
        if strs(v@).contains(x@) {
            let k = choose|k: int| 0 <= k < strs(v@).len() && strs(v@)[k] == x@;
            assert(v@[k]@ == x@);
        }
    }
    false
}

/// `v` without the strings equal to `x`.
fn without(v: &Vec<String>, x: &str) -> (r: Vec<String>)
    ensures
        strs(r@) == strs(v@).filter(differs(x@)),
{
    let mut out: Vec<String> = Vec::new();
    let mut i: usize = 0;
    while i < v.len()
        invariant
            i <= v@.len(),
            strs(out@) == strs(v@).take(i as int).filter(differs(x@)),
        decreases v.len() - i,
    {
        proof {
            lemma_strs_take(v@, i as int);
            strs(v@).take(i as int).lemma_filter_push(v@[i as int]@, differs(x@));
        }
        if !str_eq(v[i].as_str(), x) {
            let s = v[i].clone();
            proof {
                lemma_strs_push(out@, s);
            }
            out.push(s);
        }
        i += 1;
    }
    assert(strs(v@).take(v@.len() as int) =~= strs(v@));
    out
}

// ---------------------------------------------------------------------------
// Expanding folders
// ---------------------------------------------------------------------------

/// The expanded folders after a click on folder `path`: it closes when it was
/// open and opens otherwise.
pub open spec fn toggled_expanded(expanded: Seq<Seq<char>>, path: Seq<char>) -> Seq<Seq<char>> {
    if expanded.contains(path) {
        expanded.filter(differs(path))
    } else {
        expanded.push(path)
    }
}

/// A click on folder `path`: the expanded folders next, and whether the
/// folder is being opened (its listing is then refreshed).
pub fn toggle_expanded(expanded: &Vec<String>, path: &str) -> (r: (Vec<String>, bool))
    ensures
        strs(r.0@) == toggled_expanded(strs(expanded@), path@),
        r.1 == !strs(expanded@).contains(path@),
{
    let open = list_contains(expanded, path);
    if open {
        (without(expanded, path), false)
    } else {
        let mut next = expanded.clone();
        let ghost before = next@;
        assert(strs(before) == strs(expanded@));
        let p = path.to_string();
        proof {
            lemma_strs_push(before, p);
        }
        next.push(p);
        (next, true)
    }
}

/// The expanded folders after opening each of `dirs` in turn: a folder not
/// yet open joins at the end.
pub open spec fn expanded_with(expanded: Seq<Seq<char>>, dirs: Seq<Seq<char>>) -> Seq<Seq<char>>
    decreases dirs.len(),
{
    if dirs.len() == 0 {
        expanded
    } else {
        let e = expanded_with(expanded, dirs.drop_last());
        if e.contains(dirs.last()) {
            e
        } else {
            e.push(dirs.last())
        }
    }
}

/// Opens the folders `dirs` (as revealing a file does): the expanded folders
/// gain those not yet open, in order, and lose none.
pub fn expand_all(expanded: &Vec<String>, dirs: &Vec<String>) -> (r: Vec<String>)
    ensures
        strs(r@) == expanded_with(strs(expanded@), strs(dirs@)),
        forall|x: Seq<char>|
            #[trigger] strs(r@).contains(x) <==> (strs(expanded@).contains(x) || strs(dirs@).contains(x)),
{
    let mut next = expanded.clone();
    assert(strs(next@) == strs(expanded@));
    let mut i: usize = 0;
    while i < dirs.len()
        invariant
            i <= dirs@.len(),
            strs(next@) == expanded_with(strs(expanded@), strs(dirs@).take(i as int)),
            forall|x: Seq<char>|
                #[trigger] strs(next@).contains(x) <==> (strs(expanded@).contains(x) || strs(
                    dirs@,
                ).take(i as int).contains(x)),
        decreases dirs.len() - i,
    {
        let ghost d = strs(dirs@);
        assert(d.take(i as int + 1).drop_last() =~= d.take(i as int));
        assert(d.take(i as int + 1).last() == dirs@[i as int]@);
        let ghost before = next@;
        if !list_contains(&next, dirs[i].as_str()) {
            let p = dirs[i].clone();
            proof {
                lemma_strs_push(before, p);
            }
            next.push(p);
        }
        assert forall|x: Seq<char>|
            #[trigger] strs(next@).contains(x) <==> (strs(expanded@).contains(x) || d.take(i as int + 1).contains(x)) by {
            if d.take(i as int + 1).contains(x) && !d.take(i as int).contains(x) {
                let k = choose|k: int| 0 <= k < i + 1 && #[trigger] d.take(i as int + 1)[k] == x;
                if k < i {
                    assert(d.take(i as int)[k] == x);
                }
                assert(x == dirs@[i as int]@);
            }
            if d.take(i as int).contains(x) {
                let k = choose|k: int| 0 <= k < i && #[trigger] d.take(i as int)[k] == x;
                assert(d.take(i as int + 1)[k] == x);
            }
            if x == dirs@[i as int]@ {
                assert(d.take(i as int + 1)[i as int] == x);
            }
        }
        i += 1;
    }
    assert(strs(dirs@).take(dirs@.len() as int) =~= strs(dirs@));
    next
}

/// The expanded folders after `old` was renamed to `new`: a renamed folder
/// stays expanded under its new path.
pub open spec fn expanded_after_rename(
    expanded: Seq<Seq<char>>,
    old: Seq<char>,
    new: Seq<char>,
    is_dir: bool,
) -> Seq<Seq<char>> {
    if is_dir {
        let rest = expanded.filter(differs(old));
        if rest.contains(new) {
            rest
        } else {
            rest.push(new)
        }
    } else {
        expanded
    }
}

/// The expanded folders after the entry `old` (a folder when `is_dir`) was
/// renamed to `new`.
pub fn rename_expanded(expanded: &Vec<String>, old: &str, new: &str, is_dir: bool) -> (r: Vec<String>)
    ensures
        strs(r@) == expanded_after_rename(strs(expanded@), old@, new@, is_dir),
{
    if !is_dir {
        let r = expanded.clone();
        assert(strs(r@) == strs(expanded@));
        return r;
    }
    let mut rest = without(expanded, old);
    if !list_contains(&rest, new) {
        let n = new.to_string();
        proof {
            lemma_strs_push(rest@, n);
        }
        rest.push(n);
    }
    rest
}

// ---------------------------------------------------------------------------
// Selecting rows
// ---------------------------------------------------------------------------

/// The multi-selection after the primary selection changed from outside the
/// tree (a file was opened elsewhere): it stays when it holds the new
/// primary, else it becomes just that; nothing selected clears it.
pub open spec fn synced_selection(primary: Option<Seq<char>>, selected: Seq<Seq<char>>) -> Seq<Seq<char>> {
    match primary {
        Some(p) => if selected.contains(p) {
            selected
        } else {
            seq![p]
        },
        None => seq![],
    }
}

/// The multi-selection after the primary selection changed.
pub fn sync_selection(primary: &Option<String>, selected: &Vec<String>) -> (r: Vec<String>)
    ensures
        strs(r@) == synced_selection(
            match primary {
                Some(p) => Some(p@),
                None => None,
            },
            strs(selected@),
        ),
{
    match primary {
        Some(p) => {
            if list_contains(selected, p.as_str()) {
                let r = selected.clone();
                assert(strs(r@) == strs(selected@));
                r
            } else {
                let mut r: Vec<String> = Vec::new();
                r.push(p.clone());
                assert(strs(r@) =~= seq![p@]);
                r
            }
        },
        None => {
            let r: Vec<String> = Vec::new();
            assert(strs(r@) =~= Seq::<Seq<char>>::empty());
            r
        },
    }
}

/// The first position at or after `i` of `x` in `v`.
pub open spec fn first_pos(v: Seq<Seq<char>>, x: Seq<char>, i: int) -> Option<int>
    decreases v.len() - i,
{
    if i < 0 || i >= v.len() {
        None
    } else if v[i] == x {
        Some(i)
    } else {
        first_pos(v, x, i + 1)
    }
}

/// The position in `v` of the first of `sel[j..]` that is in `v`.
pub open spec fn first_found(sel: Seq<Seq<char>>, v: Seq<Seq<char>>, j: int) -> Option<int>
    decreases sel.len() - j,
{
    if j < 0 || j >= sel.len() {
        None
    } else {
        match first_pos(v, sel[j], 0) {
            Some(k) => Some(k),
            None => first_found(sel, v, j + 1),
        }
    }
}

/// Where a shift-click range starts: the primary selection's row, else the
/// row of the first selected path that is shown (in the order the
/// multi-selection was handed over).
pub open spec fn anchor_pos(v: Seq<Seq<char>>, anchor: Option<Seq<char>>, sel: Seq<Seq<char>>) -> Option<int> {
    match anchor {
        Some(a) => match first_pos(v, a, 0) {
            Some(k) => Some(k),
            None => first_found(sel, v, 0),
        },
        None => first_found(sel, v, 0),
    }
}

/// The rows selected by a shift-click on `clicked`: every shown row from the
/// anchor to the clicked one; just the clicked path when it is not shown.
pub open spec fn shift_range(
    visible: Seq<Seq<char>>,
    clicked: Seq<char>,
    anchor: Option<Seq<char>>,
    sel: Seq<Seq<char>>,
) -> Seq<Seq<char>> {
    match first_pos(visible, clicked, 0) {
        None => seq![clicked],
        Some(c) => {
            let a = match anchor_pos(visible, anchor, sel) {
                Some(k) => k,
                None => c,
            };
            if a <= c {
                visible.subrange(a, c + 1)
            } else {
                visible.subrange(c, a + 1)
            }
        },
    }
}

proof fn lemma_first_pos(v: Seq<Seq<char>>, x: Seq<char>, i: int)
    requires
        0 <= i,
    ensures
        first_pos(v, x, i) matches Some(k) ==> i <= k < v.len() && v[k] == x,
    decreases v.len() - i,
{
    if i < v.len() && v[i] != x {
        lemma_first_pos(v, x, i + 1);
    }
}

proof fn lemma_first_found(sel: Seq<Seq<char>>, v: Seq<Seq<char>>, j: int)
    requires
        0 <= j,
    ensures
        first_found(sel, v, j) matches Some(k) ==> 0 <= k < v.len(),
    decreases sel.len() - j,
{
    if 0 <= j < sel.len() {
        lemma_first_pos(v, sel[j], 0);
        lemma_first_found(sel, v, j + 1);
    }
}

/// The first position of `x` in `v`.
fn position(v: &Vec<String>, x: &str) -> (r: Option<usize>)
    ensures
        match r {
            Some(k) => k < v@.len() && first_pos(strs(v@), x@, 0) == Some(k as int),
            None => first_pos(strs(v@), x@, 0) is None,
        },
{
    let ghost s = strs(v@);
    let mut i: usize = 0;
    while i < v.len()
        invariant
            i <= v@.len(),
            s == strs(v@),
            first_pos(s, x@, 0) == first_pos(s, x@, i as int),
        decreases v.len() - i,
    {
        if str_eq(v[i].as_str(), x) {
            return Some(i);
        }
        i += 1;
    }
    None
}

/// The position in `visible` of the first of `selected` that is shown.
fn first_shown(selected: &Vec<String>, visible: &Vec<String>) -> (r: Option<usize>)
    ensures
        match r {
            Some(k) => k < visible@.len() && first_found(strs(selected@), strs(visible@), 0) == Some(k as int),
            None => first_found(strs(selected@), strs(visible@), 0) is None,
        },
{
    let ghost vs = strs(visible@);
    let ghost ss = strs(selected@);
    let mut j: usize = 0;
    while j < selected.len()
        invariant
            j <= selected@.len(),
            vs == strs(visible@),
            ss == strs(selected@),
            first_found(ss, vs, 0) == first_found(ss, vs, j as int),
        decreases selected.len() - j,
    {
        assert(ss[j as int] == selected@[j as int]@);
        match position(visible, selected[j].as_str()) {
            Some(k) => {
                return Some(k);
            },
            None => {},
        }
        j += 1;
    }
    None
}

/// The result of a shift-click.
pub struct RangeSelection {
    /// The multi-selection, in the order the rows are shown.
    pub selected: Vec<String>,
    /// The primary selection: the clicked path.
    pub primary: String,
}

/// A shift-click on the row `clicked`, with `visible` the rows as shown,
/// `anchor` the primary selection and `selected` the multi-selection.
pub fn shift_click_select(
    visible: &Vec<String>,
    clicked: &str,
    anchor: &Option<String>,
    selected: &Vec<String>,
) -> (r: RangeSelection)
    ensures
        strs(r.selected@) == shift_range(
            strs(visible@),
            clicked@,
            match anchor {
                Some(a) => Some(a@),
                None => None,
            },
            strs(selected@),
        ),
        r.primary@ == clicked@,
{
    let ghost vs = strs(visible@);
    let ghost ss = strs(selected@);
    let c = match position(visible, clicked) {
        None => {
            let mut only: Vec<String> = Vec::new();
            only.push(clicked.to_string());
            assert(strs(only@) =~= seq![clicked@]);
            return RangeSelection { selected: only, primary: clicked.to_string() };
        },
        Some(c) => c,
    };
    proof {
        lemma_first_found(ss, vs, 0);
    }
    let mut a: Option<usize> = match anchor {
        Some(p) => position(visible, p.as_str()),
        None => None,
    };
    if a.is_none() {
        a = first_shown(selected, visible);
    }
    let ghost anchor_v = match anchor {
        Some(p) => Some(p@),
        None => None,
    };
    assert(match a {
        Some(k) => anchor_pos(vs, anchor_v, ss) == Some(k as int) && k < visible@.len(),
        None => anchor_pos(vs, anchor_v, ss) is None,
    });
    let a = match a {
        Some(k) => k,
        None => c,
    };
    let (lo, hi) = if a <= c {
        (a, c)
    } else {
        (c, a)
    };
    let mut out: Vec<String> = Vec::new();
    let mut i: usize = lo;
    while i <= hi
        invariant
            lo <= i <= hi + 1,
            hi < visible.len(),
            vs == strs(visible@),
            strs(out@) == vs.subrange(lo as int, i as int),
        decreases hi + 1 - i,
    {
        let s = visible[i].clone();
        proof {
            lemma_strs_push(out@, s);
            assert(vs.subrange(lo as int, i + 1) =~= vs.subrange(lo as int, i as int).push(s@));
        }
        out.push(s);
        i += 1;
    }
    RangeSelection { selected: out, primary: clicked.to_string() }
}

// ---------------------------------------------------------------------------
// The context menu
// ---------------------------------------------------------------------------

/// What a context-menu action applies to: every selected row, in the order
/// shown, when the row clicked is part of a multi-selection; else that row.
pub open spec fn menu_targets_of(
    visible: Seq<Seq<char>>,
    path: Seq<char>,
    selected: Seq<Seq<char>>,
) -> Seq<Seq<char>> {
    if selected.contains(path) && selected.len() > 1 {
        visible.filter(member_of(selected))
    } else {
        seq![path]
    }
}

/// The paths a context-menu action on `path` applies to; `selected` is the
/// multi-selection, a set.
pub fn menu_targets(visible: &Vec<String>, path: &str, selected: &Vec<String>) -> (r: Vec<String>)
    requires
        strs(selected@).no_duplicates(),
    ensures
        strs(r@) == menu_targets_of(strs(visible@), path@, strs(selected@)),
{
    if list_contains(selected, path) && selected.len() > 1 {
        let ghost sel = strs(selected@);
        let mut out: Vec<String> = Vec::new();
        let mut i: usize = 0;
        while i < visible.len()
            invariant
                i <= visible@.len(),
                sel == strs(selected@),
                strs(out@) == strs(visible@).take(i as int).filter(member_of(sel)),
            decreases visible.len() - i,
        {
            proof {
                lemma_strs_take(visible@, i as int);
                strs(visible@).take(i as int).lemma_filter_push(visible@[i as int]@, member_of(sel));
            }
            if list_contains(selected, visible[i].as_str()) {
                let s = visible[i].clone();
                proof {
                    lemma_strs_push(out@, s);
                }
                out.push(s);
            }
            i += 1;
        }
        assert(strs(visible@).take(visible@.len() as int) =~= strs(visible@));
        out
    } else {
        let mut out: Vec<String> = Vec::new();
        out.push(path.to_string());
        assert(strs(out@) =~= seq![path@]);
        out
    }
}

/// The label of the menu entries that add the targets to a chat.
pub open spec fn add_to_chat_label_of(n: nat, new_chat: bool) -> Seq<char> {
    if n > 1 {
        "将 "@ + decimal(n) + (if new_chat {
            " 个文件加入新的 Chat"@
        } else {
            " 个文件加入 Chat"@
        })
    } else if new_chat {
        "加入新的 Chat"@
    } else {
        "加入 Chat"@
    }
}

/// The label of the entry that adds `n` paths to the current chat, or to a
/// new one.
pub fn add_to_chat_label(n: usize, new_chat: bool) -> (r: String)
    ensures
        r@ == add_to_chat_label_of(n as nat, new_chat),
{
    if n > 1 {
        let mut out = "将 ".to_string();
        push_decimal(&mut out, n as u64);
        out.append(if new_chat { " 个文件加入新的 Chat" } else { " 个文件加入 Chat" });
        out
    } else if new_chat {
        "加入新的 Chat".to_string()
    } else {
        "加入 Chat".to_string()
    }
}

/// The notice after `n` paths were cut (or copied) to the file clipboard.
pub open spec fn clipboard_notice_of(n: nat, cut: bool) -> Seq<char> {
    if n > 1 {
        (if cut {
            "已剪切 "@
        } else {
            "已复制 "@
        }) + decimal(n) + " 项。"@
    } else if cut {
        "已剪切。"@
    } else {
        "已复制。"@
    }
}

/// The notice after `n` paths were cut (or copied) to the file clipboard.
pub fn clipboard_notice(n: usize, cut: bool) -> (r: String)
    ensures
        r@ == clipboard_notice_of(n as nat, cut),
{
    if n > 1 {
        let mut out = if cut { "已剪切 ".to_string() } else { "已复制 ".to_string() };
        push_decimal(&mut out, n as u64);
        out.append(" 项。");
        out
    } else if cut {
        "已剪切。".to_string()
    } else {
        "已复制。".to_string()
    }
}

/// The notice after pasting: the first error met, else success.
pub fn paste_notice(first_error: Option<String>) -> (r: String)
    ensures
        r@ == match first_error {
            Some(e) => e@,
            None => "已粘贴。"@,
        },
{
    match first_error {
        Some(e) => e,
        None => "已粘贴。".to_string(),
    }
}

/// The folder a paste goes into, given the parent of the clicked row: the
/// row itself when it is a folder, else its parent, else the workspace root.
pub fn paste_target_from(path: &str, is_dir: bool, parent: Option<String>, root: &str) -> (r: String)
    ensures
        r@ == (if is_dir {
            path@
        } else {
            match parent {
                Some(p) => p@,
                None => root@,
            }
        }),
{
    if is_dir {
        path.to_string()
    } else {
        match parent {
            Some(p) => p,
            None => root.to_string(),
        }
    }
}

/// The folder a paste on the row `path` goes into: for a clean path of a
/// file, its parent folder, or the root when it has none.
pub fn paste_target(path: &str, is_dir: bool, root: &str) -> (r: String)
    ensures
        is_dir ==> r@ == path@,
        !is_dir && clean_path(path@) ==> r@ == match parent_of(path@) {
            Some(p) => p,
            None => root@,
        },
{
    let parent = if is_dir {
        None
    } else {
        path_parent(path)
    };
    paste_target_from(path, is_dir, parent, root)
}

/// The folder a terminal opens in, given the parent of the clicked row: the
/// row itself when it is a folder, else its parent, else the row's path.
pub fn terminal_dir_from(path: &str, is_dir: bool, parent: Option<String>) -> (r: String)
    ensures
        r@ == (if is_dir {
            path@
        } else {
            match parent {
                Some(p) => p@,
                None => path@,
            }
        }),
{
    if is_dir {
        path.to_string()
    } else {
        match parent {
            Some(p) => p,
            None => path.to_string(),
        }
    }
}

/// The folder a terminal opened on the row `path` starts in: for a clean
/// path of a file, its parent folder, or the path itself when it has none.
pub fn terminal_dir(path: &str, is_dir: bool) -> (r: String)
    ensures
        is_dir ==> r@ == path@,
        !is_dir && clean_path(path@) ==> r@ == match parent_of(path@) {
            Some(p) => p,
            None => path@,
        },
{
    let parent = if is_dir {
        None
    } else {
        path_parent(path)
    };
    terminal_dir_from(path, is_dir, parent)
}

/// The style classes of a row.
pub open spec fn row_class_of(selected: bool, muted: bool, written: bool) -> Seq<char> {
    "ac-sidebar-files-row"@ + (if selected {
        " is-selected"@
    } else {
        seq![]
    }) + (if muted {
        " is-muted"@
    } else {
        seq![]
    }) + (if written {
        " is-just-written"@
    } else {
        seq![]
    })
}

/// The style classes of a row: selected, dimmed, and just written.
pub fn row_class(selected: bool, muted: bool, written: bool) -> (r: String)
    ensures
        r@ == row_class_of(selected, muted, written),
{
    let mut out = "ac-sidebar-files-row".to_string();
    if selected {
        out.append(" is-selected");
    }
    if muted {
        out.append(" is-muted");
    }
    if written {
        out.append(" is-just-written");
    }
    assert(out@ =~= row_class_of(selected, muted, written));
    out
}

// ---------------------------------------------------------------------------
// Laws
// ---------------------------------------------------------------------------

/// Membership after removing `p`: everything but `p` stays.
proof fn lemma_without_contains(e: Seq<Seq<char>>, p: Seq<char>, x: Seq<char>)
    ensures
        e.filter(differs(p)).contains(x) <==> (e.contains(x) && x != p),
{
    if e.filter(differs(p)).contains(x) {
        e.lemma_filter_contains_rev(differs(p), x);
        let k = choose|k: int| 0 <= k < e.filter(differs(p)).len() && e.filter(differs(p))[k] == x;
        e.lemma_filter_pred(differs(p), k);
    }
    if e.contains(x) && x != p {
        let k = choose|k: int| 0 <= k < e.len() && e[k] == x;
        e.lemma_filter_contains(differs(p), k);
    }
}

/// A click on a folder opens it exactly when it was closed, and leaves every
/// other folder as it was.
pub proof fn law_toggle_flips_only_that_folder(e: Seq<Seq<char>>, p: Seq<char>, x: Seq<char>)
    ensures
        toggled_expanded(e, p).contains(p) == !e.contains(p),
        x != p ==> (toggled_expanded(e, p).contains(x) == e.contains(x)),
{
    lemma_without_contains(e, p, x);
    lemma_without_contains(e, p, p);
    if !e.contains(p) {
        assert(e.push(p)[e.len() as int] == p);
        if e.push(p).contains(x) && x != p {
            let k = choose|k: int| 0 <= k < e.push(p).len() && e.push(p)[k] == x;
            assert(e[k] == x);
        }
        if e.contains(x) {
            let k = choose|k: int| 0 <= k < e.len() && e[k] == x;
            assert(e.push(p)[k] == x);
        }
    }
}

/// Two clicks on the same folder leave the same folders expanded.
pub proof fn law_toggle_twice_restores(e: Seq<Seq<char>>, p: Seq<char>, x: Seq<char>)
    ensures
        toggled_expanded(toggled_expanded(e, p), p).contains(x) == e.contains(x),
{
    law_toggle_flips_only_that_folder(e, p, x);
    law_toggle_flips_only_that_folder(toggled_expanded(e, p), p, x);
}

/// A renamed folder stays expanded exactly when it was, under its new path;
/// other expanded folders stay.
pub proof fn law_rename_moves_expansion(
    e: Seq<Seq<char>>,
    old: Seq<char>,
    new: Seq<char>,
    x: Seq<char>,
)
    ensures
        expanded_after_rename(e, old, new, true).contains(new),
        x != old && x != new ==> (expanded_after_rename(e, old, new, true).contains(x) == e.contains(x)),
        old != new ==> !expanded_after_rename(e, old, new, true).contains(old),
{
    let rest = e.filter(differs(old));
    lemma_without_contains(e, old, x);
    lemma_without_contains(e, old, old);
    if !rest.contains(new) {
        assert(rest.push(new)[rest.len() as int] == new);
        if rest.push(new).contains(x) && x != new {
            let k = choose|k: int| 0 <= k < rest.push(new).len() && rest.push(new)[k] == x;
            assert(rest[k] == x);
        }
        if rest.contains(x) {
            let k = choose|k: int| 0 <= k < rest.len() && rest[k] == x;
            assert(rest.push(new)[k] == x);
        }
        if old != new && rest.push(new).contains(old) {
            let k = choose|k: int| 0 <= k < rest.push(new).len() && rest.push(new)[k] == old;
            assert(rest[k] == old);
        }
    }
}

/// A shift-click on a shown row selects a run of consecutive shown rows that
/// holds the clicked one.
pub proof fn law_shift_range_is_a_run(
    visible: Seq<Seq<char>>,
    clicked: Seq<char>,
    anchor: Option<Seq<char>>,
    sel: Seq<Seq<char>>,
)
    requires
        visible.contains(clicked),
    ensures
        exists|lo: int, hi: int|
            #![trigger visible.subrange(lo, hi)]
            0 <= lo < hi <= visible.len() && shift_range(visible, clicked, anchor, sel)
                == visible.subrange(lo, hi),
        shift_range(visible, clicked, anchor, sel).contains(clicked),
{
    lemma_first_pos(visible, clicked, 0);
    lemma_first_found(sel, visible, 0);
    match anchor {
        Some(a) => lemma_first_pos(visible, a, 0),
        None => {},
    }
    if first_pos(visible, clicked, 0) is None {
        let k = choose|k: int| 0 <= k < visible.len() && visible[k] == clicked;
        lemma_first_pos_finds(visible, clicked, 0, k);
    }
    let c = first_pos(visible, clicked, 0)->0;
    let a = match anchor_pos(visible, anchor, sel) {
        Some(k) => k,
        None => c,
    };
    let r = shift_range(visible, clicked, anchor, sel);
    if a <= c {
        assert(r[c - a] == clicked);
        assert(r == visible.subrange(a, c + 1));
    } else {
        assert(r[0] == clicked);
        assert(r == visible.subrange(c, a + 1));
    }
}

/// When `x` occurs at `k >= i`, [`first_pos`] finds some position.
proof fn lemma_first_pos_finds(v: Seq<Seq<char>>, x: Seq<char>, i: int, k: int)
    requires
        0 <= i <= k < v.len(),
        v[k] == x,
    ensures
        first_pos(v, x, i) is Some,
    decreases k - i,
{
    if v[i] != x {
        lemma_first_pos_finds(v, x, i + 1, k);
    }
}

} // verus!
