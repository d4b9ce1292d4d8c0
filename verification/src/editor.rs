//! The text editor's buffers: the draft of each open file, the baseline it
//! was last loaded or saved with, which files have unsaved edits, and which
//! could not be read. A file has unsaved edits exactly when its draft differs
//! from its baseline.
use vstd::prelude::*;
use crate::text::str_eq;

verus! {

broadcast use vstd::seq_lib::group_seq_properties;

/// A text value per path, each path once.
pub type TextMap = Vec<(String, String)>;

pub open spec fn map_view(m: Seq<(String, String)>) -> Seq<(Seq<char>, Seq<char>)> {
    m.map_values(|kv: (String, String)| (kv.0@, kv.1@))
}

/// The position of `k` in `m`, if any.
pub open spec fn key_index(m: Seq<(Seq<char>, Seq<char>)>, k: Seq<char>) -> Option<int>
    decreases m.len(),
{
    if m.len() == 0 {
        None
    } else {
        match key_index(m.drop_last(), k) {
            Some(i) => Some(i),
            None => if m.last().0 == k {
                Some(m.len() - 1)
            } else {
                None
            },
        }
    }
}

pub proof fn lemma_key_index(m: Seq<(Seq<char>, Seq<char>)>, k: Seq<char>)
    ensures
        key_index(m, k) matches Some(i) ==> 0 <= i < m.len() && m[i].0 == k && forall|j: int|
            0 <= j < i ==> (#[trigger] m[j]).0 != k,
        key_index(m, k) is None ==> forall|j: int| 0 <= j < m.len() ==> (#[trigger] m[j]).0 != k,
    decreases m.len(),
{
    if m.len() > 0 {
        lemma_key_index(m.drop_last(), k);
        assert forall|j: int| 0 <= j < m.len() - 1 implies m[j] == m.drop_last()[j] by {}
    }
}

/// The value kept for `k`.
pub open spec fn get(m: Seq<(Seq<char>, Seq<char>)>, k: Seq<char>) -> Option<Seq<char>> {
    match key_index(m, k) {
        Some(i) => Some(m[i].1),
        None => None,
    }
}

/// `m` with `v` kept for `k`.
pub open spec fn put(m: Seq<(Seq<char>, Seq<char>)>, k: Seq<char>, v: Seq<char>) -> Seq<(Seq<char>, Seq<char>)> {
    match key_index(m, k) {
        Some(i) => m.update(i, (k, v)),
        None => m.push((k, v)),
    }
}

/// `m` without `k`.
pub open spec fn del(m: Seq<(Seq<char>, Seq<char>)>, k: Seq<char>) -> Seq<(Seq<char>, Seq<char>)> {
    match key_index(m, k) {
        Some(i) => m.remove(i),
        None => m,
    }
}

/// No key twice.
pub open spec fn unique_keys(m: Seq<(Seq<char>, Seq<char>)>) -> bool {
    forall|i: int, j: int| 0 <= i < j < m.len() ==> (#[trigger] m[i]).0 != (#[trigger] m[j]).0
}

/// The position of `k`.
fn key_position(m: &TextMap, k: &str) -> (r: Option<usize>)
    ensures
        match r {
            Some(i) => key_index(map_view(m@), k@) == Some(i as int) && i < m@.len(),
            None => key_index(map_view(m@), k@) is None,
        },
{
    let ghost mv = map_view(m@);
    let mut i: usize = 0;
    while i < m.len()
        invariant
            i <= m@.len(),
            mv == map_view(m@),
            forall|j: int| 0 <= j < i ==> (#[trigger] mv[j]).0 != k@,
        decreases m.len() - i,
    {
        assert(mv[i as int] == (m@[i as int].0@, m@[i as int].1@));
        if str_eq(m[i].0.as_str(), k) {
            proof {
                lemma_key_index(mv, k@);
                match key_index(mv, k@) {
                    Some(j) => {
                        if j > i {
                            assert(mv[i as int].0 == k@);
                        }
                    },
                    None => {
                        assert(mv[i as int].0 == k@);
                    },
                }
            }
            return Some(i);
        }
        i += 1;
    }
    proof {
        lemma_key_index(mv, k@);
        if let Some(j) = key_index(mv, k@) {
            assert(mv[j].0 == k@);
        }
    }
    None
}

/// The value kept for `k`.
pub fn map_get(m: &TextMap, k: &str) -> (r: Option<String>)
    ensures
        match r {
            Some(v) => get(map_view(m@), k@) == Some(v@),
            None => get(map_view(m@), k@) is None,
        },
{
    match key_position(m, k) {
        Some(i) => {
            assert(map_view(m@)[i as int] == (m@[i as int].0@, m@[i as int].1@));
            Some(m[i].1.clone())
        },
        None => None,
    }
}

/// Keeps `v` for `k`.
pub fn map_put(m: &mut TextMap, k: &str, v: String)
    ensures
        map_view(final(m)@) == put(map_view(old(m)@), k@, v@),
{
    let ghost before = map_view(m@);
    match key_position(m, k) {
        Some(i) => {
            let _ = m.remove(i);
            m.insert(i, (k.to_string(), v));
            assert(map_view(m@) =~= before.update(i as int, (k@, m@[i as int].1@)));
        },
        None => {
            m.push((k.to_string(), v));
            assert(map_view(m@) =~= before.push((k@, m@[m@.len() - 1].1@)));
        },
    }
}

/// Drops `k`.
pub fn map_del(m: &mut TextMap, k: &str)
    ensures
        map_view(final(m)@) == del(map_view(old(m)@), k@),
{
    let ghost before = map_view(m@);
    match key_position(m, k) {
        Some(i) => {
            let _ = m.remove(i);
            assert(map_view(m@) =~= before.remove(i as int));
        },
        None => {},
    }
}

/// `s` with `k` added (once).
pub open spec fn set_add(s: Seq<Seq<char>>, k: Seq<char>) -> Seq<Seq<char>> {
    if s.contains(k) {
        s
    } else {
        s.push(k)
    }
}

/// `s` without `k`.
pub open spec fn set_del(s: Seq<Seq<char>>, k: Seq<char>) -> Seq<Seq<char>> {
    s.filter(crate::llm_enabled::is_not(k))
}

fn set_insert(s: &mut Vec<String>, k: &str)
    ensures
        crate::llm_enabled::ids(final(s)@) == set_add(crate::llm_enabled::ids(old(s)@), k@),
{
    if !crate::llm_enabled::contains_id(s, k) {
        let ghost before = s@;
        s.push(k.to_string());
        assert(crate::llm_enabled::ids(s@) =~= crate::llm_enabled::ids(before).push(k@));
    }
}

fn set_remove(s: &mut Vec<String>, k: &str)
    ensures
        crate::llm_enabled::ids(final(s)@) == set_del(crate::llm_enabled::ids(old(s)@), k@),
{
    let kept = crate::llm_enabled::enabled_after_toggle(s, k, false);
    *s = kept;
}

// ---------------------------------------------------------------------------
// The buffers
// ---------------------------------------------------------------------------

/// The editor's state.
pub struct EditorBuffers {
    pub drafts: TextMap,
    pub baselines: TextMap,
    pub dirty: Vec<String>,
    pub load_errors: TextMap,
}

pub struct BuffersView {
    pub drafts: Seq<(Seq<char>, Seq<char>)>,
    pub baselines: Seq<(Seq<char>, Seq<char>)>,
    pub dirty: Seq<Seq<char>>,
    pub load_errors: Seq<(Seq<char>, Seq<char>)>,
}

impl View for EditorBuffers {
    type V = BuffersView;

    open spec fn view(&self) -> BuffersView {
        BuffersView {
            drafts: map_view(self.drafts@),
            baselines: map_view(self.baselines@),
            dirty: crate::llm_enabled::ids(self.dirty@),
            load_errors: map_view(self.load_errors@),
        }
    }
}

/// After reading `path`: its text becomes draft and baseline, or the error
/// is kept.
pub open spec fn loaded(b: BuffersView, path: Seq<char>, read: Result<Seq<char>, Seq<char>>) -> BuffersView {
    match read {
        Ok(text) => BuffersView {
            drafts: put(b.drafts, path, text),
            baselines: put(b.baselines, path, text),
            load_errors: del(b.load_errors, path),
            ..b
        },
        Err(e) => BuffersView { load_errors: put(b.load_errors, path, e), ..b },
    }
}

/// After typing: the draft is `text`; the file has unsaved edits unless
/// `text` is its baseline.
pub open spec fn edited(b: BuffersView, path: Seq<char>, text: Seq<char>) -> BuffersView {
    BuffersView {
        drafts: put(b.drafts, path, text),
        dirty: if get(b.baselines, path) == Some(text) {
            set_del(b.dirty, path)
        } else {
            set_add(b.dirty, path)
        },
        ..b
    }
}

/// After `body` was written: it is the baseline and nothing is unsaved.
pub open spec fn saved(b: BuffersView, path: Seq<char>, body: Seq<char>) -> BuffersView {
    BuffersView { baselines: put(b.baselines, path, body), dirty: set_del(b.dirty, path), ..b }
}

/// After the file's tab was closed: nothing of it is kept.
pub open spec fn forgotten(b: BuffersView, path: Seq<char>) -> BuffersView {
    BuffersView {
        drafts: del(b.drafts, path),
        baselines: del(b.baselines, path),
        dirty: set_del(b.dirty, path),
        load_errors: del(b.load_errors, path),
    }
}

/// After a replacement wrote `written` (path, new text) in turn: each
/// written text is the file's draft and baseline.
pub open spec fn replaced_in(b: BuffersView, written: Seq<(Seq<char>, Seq<char>)>) -> BuffersView
    decreases written.len(),
{
    if written.len() == 0 {
        b
    } else {
        let prev = replaced_in(b, written.drop_last());
        let (p, c) = written.last();
        BuffersView { drafts: put(prev.drafts, p, c), baselines: put(prev.baselines, p, c), ..prev }
    }
}

impl EditorBuffers {
    /// No open file.
    pub fn new() -> (r: EditorBuffers)
        ensures
            r@.drafts.len() == 0 && r@.baselines.len() == 0 && r@.dirty.len() == 0
                && r@.load_errors.len() == 0,
    {
        let r = EditorBuffers { drafts: Vec::new(), baselines: Vec::new(), dirty: Vec::new(), load_errors: Vec::new() };
        assert(r@.drafts =~= Seq::empty());
        assert(r@.baselines =~= Seq::empty());
        assert(r@.dirty =~= Seq::empty());
        assert(r@.load_errors =~= Seq::empty());
        r
    }

    /// Whether `path` still has to be read: it has neither a draft nor a read
    /// error.
    pub fn needs_load(&self, path: &str) -> (r: bool)
        ensures
            r == (get(self@.drafts, path@) is None && get(self@.load_errors, path@) is None),
    {
        map_get(&self.drafts, path).is_none() && map_get(&self.load_errors, path).is_none()
    }

    /// Takes the result of reading `path`.
    pub fn load_result(&mut self, path: &str, read: Result<String, String>)
        ensures
            final(self)@ == loaded(old(self)@, path@, match read {
                Ok(t) => Ok(t@),
                Err(e) => Err(e@),
            }),
    {
        match read {
            Ok(text) => {
                map_put(&mut self.drafts, path, text.clone());
                map_put(&mut self.baselines, path, text);
                map_del(&mut self.load_errors, path);
            },
            Err(e) => {
                map_put(&mut self.load_errors, path, e);
            },
        }
    }

    /// Takes an edit of `path`'s text.
    pub fn edit(&mut self, path: &str, text: String)
        ensures
            final(self)@ == edited(old(self)@, path@, text@),
    {
        let matches_baseline = match map_get(&self.baselines, path) {
            Some(b) => str_eq(b.as_str(), text.as_str()),
            None => false,
        };
        map_put(&mut self.drafts, path, text);
        if matches_baseline {
            set_remove(&mut self.dirty, path);
        } else {
            set_insert(&mut self.dirty, path);
        }
    }

    /// The draft to write when saving `path`, if there is one.
    pub fn save_body(&self, path: &str) -> (r: Option<String>)
        ensures
            match r {
                Some(v) => get(self@.drafts, path@) == Some(v@),
                None => get(self@.drafts, path@) is None,
            },
    {
        map_get(&self.drafts, path)
    }

    /// Takes the result of writing `body` to `path`, and gives the notice to
    /// show: on success `body` becomes the baseline and nothing is unsaved.
    pub fn save_result(&mut self, path: &str, body: String, written: Result<(), String>) -> (r: String)
        ensures
            written is Ok ==> final(self)@ == saved(old(self)@, path@, body@) && r@ == "已保存"@,
            written matches Err(e) ==> final(self)@ == old(self)@ && r@ == e@,
    {
        match written {
            Ok(()) => {
                map_put(&mut self.baselines, path, body);
                set_remove(&mut self.dirty, path);
                "已保存".to_string()
            },
            Err(e) => e,
        }
    }

    /// Forgets everything of `path`.
    pub fn fs_forget_open_file(&mut self, path: &str)
        ensures
            final(self)@ == forgotten(old(self)@, path@),
    {
        map_del(&mut self.drafts, path);
        map_del(&mut self.baselines, path);
        set_remove(&mut self.dirty, path);
        map_del(&mut self.load_errors, path);
    }

    /// Takes the files a replacement wrote: each new text becomes the file's
    /// draft and baseline; nothing else changes.
    pub fn apply_replaced(&mut self, written: &Vec<(String, String)>)
        ensures
            final(self)@ == replaced_in(old(self)@, crate::search::written_view(written@)),
    {
        let ghost start = self@;
        let ghost wv = crate::search::written_view(written@);
        let mut i: usize = 0;
        while i < written.len()
            invariant
                i <= written@.len(),
                wv == crate::search::written_view(written@),
                self@ == replaced_in(start, wv.take(i as int)),
            decreases written.len() - i,
        {
            assert(wv.take(i as int + 1).drop_last() =~= wv.take(i as int));
            assert(wv.take(i as int + 1).last() == (written@[i as int].0@, written@[i as int].1@));
            map_put(&mut self.drafts, written[i].0.as_str(), written[i].1.clone());
            map_put(&mut self.baselines, written[i].0.as_str(), written[i].1.clone());
            i += 1;
        }
        assert(wv.take(written@.len() as int) =~= wv);
    }

    /// Whether `path` has unsaved edits.
    pub fn is_dirty(&self, path: &str) -> (r: bool)
        ensures
            r == self@.dirty.contains(path@),
    {
        crate::llm_enabled::contains_id(&self.dirty, path)
    }
}

// ---------------------------------------------------------------------------
// Laws
// ---------------------------------------------------------------------------

/// The value just kept for a key is what the map gives back; other keys keep
/// theirs.
pub proof fn law_put_then_get(m: Seq<(Seq<char>, Seq<char>)>, k: Seq<char>, v: Seq<char>, other: Seq<char>)
    ensures
        get(put(m, k, v), k) == Some(v),
        other != k ==> get(put(m, k, v), other) == get(m, other),
        get(del(m, k), k) is None || !unique_keys(m),
        unique_keys(m) ==> unique_keys(put(m, k, v)) && unique_keys(del(m, k)),
{
    lemma_key_index(m, k);
    lemma_key_index(m, other);
    let p = put(m, k, v);
    lemma_key_index(p, k);
    lemma_key_index(p, other);
    match key_index(m, k) {
        Some(i) => {
            assert(p[i] == (k, v));
            if let Some(j) = key_index(p, k) {
                if j != i {
                    assert(p[j] == m[j]);
                }
            }
            if other != k {
                match key_index(m, other) {
                    Some(j) => {
                        assert(p[j] == m[j]);
                        if let Some(q) = key_index(p, other) {
                            if q < j {
                                assert(p[q] == m[q]);
                            }
                        }
                    },
                    None => {
                        if let Some(q) = key_index(p, other) {
                            assert(p[q] == m[q]);
                        }
                    },
                }
            }
        },
        None => {
            if let Some(j) = key_index(p, k) {
                if j < m.len() {
                    assert(p[j] == m[j]);
                }
            }
            assert(p[m.len() as int] == (k, v));
            if other != k {
                match key_index(m, other) {
                    Some(j) => {
                        assert(p[j] == m[j]);
                        if let Some(q) = key_index(p, other) {
                            if q < j {
                                assert(p[q] == m[q]);
                            }
                        }
                    },
                    None => {
                        if let Some(q) = key_index(p, other) {
                            if q < m.len() {
                                assert(p[q] == m[q]);
                            }
                        }
                    },
                }
            }
        },
    }
    let d = del(m, k);
    lemma_key_index(d, k);
    if unique_keys(m) {
        match key_index(m, k) {
            Some(i) => {
                if let Some(j) = key_index(d, k) {
                    if j < i {
                        assert(d[j] == m[j]);
                    } else {
                        assert(d[j] == m[j + 1]);
                        assert(m[i].0 != m[j + 1].0);
                    }
                }
                assert forall|a: int, b: int| 0 <= a < b < p.len() implies (#[trigger] p[a]).0 != (#[trigger] p[b]).0 by {
                    if a != i && b != i {
                        assert(m[a].0 != m[b].0);
                    } else if a == i {
                        assert(m[i].0 != m[b].0);
                    } else {
                        assert(m[a].0 != m[i].0);
                    }
                }
                assert forall|a: int, b: int| 0 <= a < b < d.len() implies (#[trigger] d[a]).0 != (#[trigger] d[b]).0 by {
                    let a2 = if a < i { a } else { a + 1 };
                    let b2 = if b < i { b } else { b + 1 };
                    assert(d[a] == m[a2]);
                    assert(d[b] == m[b2]);
                }
            },
            None => {
                assert forall|a: int, b: int| 0 <= a < b < p.len() implies (#[trigger] p[a]).0 != (#[trigger] p[b]).0 by {
                    if b == m.len() {
                        assert(p[a] == m[a]);
                    } else {
                        assert(m[a].0 != m[b].0);
                    }
                }
            },
        }
    }
}

/// After an edit, the file has unsaved edits exactly when its draft differs
/// from its baseline.
pub proof fn law_edit_marks_dirty(b: BuffersView, path: Seq<char>, text: Seq<char>)
    ensures
        get(edited(b, path, text).drafts, path) == Some(text),
        edited(b, path, text).dirty.contains(path) <==> get(edited(b, path, text).baselines, path) != get(
            edited(b, path, text).drafts,
            path,
        ),
{
    law_put_then_get(b.drafts, path, text, path);
    crate::llm_enabled::lemma_filter_contains_iff(b.dirty, crate::llm_enabled::is_not(path), path);
    if !b.dirty.contains(path) {
        assert(b.dirty.push(path)[b.dirty.len() as int] == path);
    }
}

/// After a successful save nothing is unsaved and the baseline is what was
/// written; saving the current draft makes draft and baseline agree.
pub proof fn law_save_makes_clean(b: BuffersView, path: Seq<char>, body: Seq<char>)
    ensures
        !saved(b, path, body).dirty.contains(path),
        get(saved(b, path, body).baselines, path) == Some(body),
        get(b.drafts, path) == Some(body) ==> get(saved(b, path, body).drafts, path) == get(
            saved(b, path, body).baselines,
            path,
        ),
{
    law_put_then_get(b.baselines, path, body, path);
    crate::llm_enabled::lemma_filter_contains_iff(b.dirty, crate::llm_enabled::is_not(path), path);
}

/// Closing a file forgets it: no draft, baseline, unsaved mark or read error
/// remains (for buffers that keep each path once).
pub proof fn law_forget_clears(b: BuffersView, path: Seq<char>)
    requires
        unique_keys(b.drafts),
        unique_keys(b.baselines),
        unique_keys(b.load_errors),
    ensures
        get(forgotten(b, path).drafts, path) is None,
        get(forgotten(b, path).baselines, path) is None,
        !forgotten(b, path).dirty.contains(path),
        get(forgotten(b, path).load_errors, path) is None,
{
    law_put_then_get(b.drafts, path, Seq::empty(), path);
    law_put_then_get(b.baselines, path, Seq::empty(), path);
    law_put_then_get(b.load_errors, path, Seq::empty(), path);
    crate::llm_enabled::lemma_filter_contains_iff(b.dirty, crate::llm_enabled::is_not(path), path);
}

/// A file read without error has equal draft and baseline.
pub proof fn law_load_is_clean_text(b: BuffersView, path: Seq<char>, text: Seq<char>)
    ensures
        get(loaded(b, path, Ok(text)).drafts, path) == Some(text),
        get(loaded(b, path, Ok(text)).baselines, path) == Some(text),
{
    law_put_then_get(b.drafts, path, text, path);
    law_put_then_get(b.baselines, path, text, path);
}

/// After a replacement that wrote each file once, every written file's
/// draft and baseline are its new text, and every other file keeps both.
pub proof fn law_replaced_files_are_synced(
    b: BuffersView,
    written: Seq<(Seq<char>, Seq<char>)>,
    other: Seq<char>,
)
    requires
        forall|i: int, j: int| 0 <= i < j < written.len() ==> (#[trigger] written[i]).0 != (#[trigger] written[j]).0,
    ensures
        forall|k: int|
            0 <= k < written.len() ==> get(replaced_in(b, written).drafts, (#[trigger] written[k]).0) == Some(written[k].1)
                && get(replaced_in(b, written).baselines, written[k].0) == Some(written[k].1),
        (forall|k: int| 0 <= k < written.len() ==> (#[trigger] written[k]).0 != other) ==> get(
            replaced_in(b, written).drafts,
            other,
        ) == get(b.drafts, other) && get(replaced_in(b, written).baselines, other) == get(
            b.baselines,
            other,
        ),
    decreases written.len(),
{
    if written.len() > 0 {
        let w = written.drop_last();
        law_replaced_files_are_synced(b, w, other);
        law_replaced_files_are_synced(b, w, written.last().0);
        let prev = replaced_in(b, w);
        let (p, c) = written.last();
        law_put_then_get(prev.drafts, p, c, other);
        law_put_then_get(prev.baselines, p, c, other);
        assert forall|k: int| 0 <= k < written.len() implies get(replaced_in(b, written).drafts, (#[trigger] written[k]).0)
            == Some(written[k].1) && get(replaced_in(b, written).baselines, written[k].0) == Some(written[k].1) by {
            if k < written.len() - 1 {
                assert(w[k] == written[k]);
                assert(written[k].0 != p);
                law_put_then_get(prev.drafts, p, c, written[k].0);
                law_put_then_get(prev.baselines, p, c, written[k].0);
            }
        }
        if forall|k: int| 0 <= k < written.len() ==> (#[trigger] written[k]).0 != other {
            assert forall|k: int| 0 <= k < w.len() implies (#[trigger] w[k]).0 != other by {
                assert(w[k] == written[k]);
            }
            assert(written[written.len() - 1].0 != other);
        }
    }
}

} // verus!
