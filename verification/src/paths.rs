//! `std::path` operations the library relies on.
//!
//! Path syntax (separators, prefixes, what is absolute) depends on the
//! platform the program runs on. The wrappers state their results only for
//! *clean* paths, whose syntax every platform reads alike: plain names joined
//! by single `/`, with or without a leading `/`, and without `\`, `:`, `.`
//! or `..` parts, a leading `//` or a trailing `/`. On other paths the
//! functions that call them are verified for every value they may give back.
use vstd::prelude::*;
use crate::text::{last_index_of, split_char, lemma_split_char_len};

verus! {

/// A single name on every platform: not empty, not `.` or `..`, and without
/// `/`, `\` or `:`.
pub open spec fn plain_name(s: Seq<char>) -> bool {
    &&& s.len() > 0
    &&& s != seq!['.']
    &&& s != seq!['.', '.']
    &&& !s.contains('/')
    &&& !s.contains('\\')
    &&& !s.contains(':')
}

/// Plain names joined by single `/`.
pub open spec fn clean_relative(p: Seq<char>) -> bool {
    forall|i: int| 0 <= i < split_char(p, '/').len() ==> plain_name(#[trigger] split_char(p, '/')[i])
}

/// A clean path: the root `/`, or a clean relative path with or without a
/// leading `/`.
pub open spec fn clean_path(p: Seq<char>) -> bool {
    ||| p == seq!['/']
    ||| clean_relative(p)
    ||| (p.len() > 0 && p[0] == '/' && clean_relative(p.drop_first()))
}

/// Splitting at a separator splits the text on each side of it.
pub proof fn lemma_split_char_concat(a: Seq<char>, b: Seq<char>, c: char)
    ensures
        split_char(a + seq![c] + b, c) == split_char(a, c) + split_char(b, c),
    decreases b.len(),
{
    let s = a + seq![c] + b;
    if b.len() == 0 {
        assert(s.drop_last() =~= a);
        assert(split_char(b, c) =~= seq![Seq::<char>::empty()]);
        assert(split_char(a, c).push(Seq::empty()) =~= split_char(a, c) + seq![Seq::<char>::empty()]);
    } else {
        let b2 = b.drop_last();
        lemma_split_char_concat(a, b2, c);
        assert(s.drop_last() =~= a + seq![c] + b2);
        lemma_split_char_len(b2, c);
        let sa = split_char(a, c);
        let sb = split_char(b2, c);
        if b.last() == c {
            assert((sa + sb).push(Seq::empty()) =~= sa + sb.push(Seq::empty()));
        } else {
            let p = sa + sb;
            assert(p.update(p.len() - 1, p.last().push(b.last())) =~= sa + sb.update(
                sb.len() - 1,
                sb.last().push(b.last()),
            ));
        }
    }
}

/// A clean relative path does not start with `/`, and is not empty.
pub proof fn lemma_clean_relative_start(p: Seq<char>)
    requires
        clean_relative(p),
    ensures
        p.len() > 0,
        p[0] != '/',
{
    lemma_split_char_len(p, '/');
    if p.len() == 0 {
        assert(split_char(p, '/') =~= seq![Seq::<char>::empty()]);
        assert(plain_name(split_char(p, '/')[0]));
    } else if p[0] == '/' {
        let e = Seq::<char>::empty();
        assert(e + seq!['/'] + p.drop_first() =~= p);
        lemma_split_char_concat(e, p.drop_first(), '/');
        assert(split_char(e, '/') =~= seq![e]);
        assert(split_char(p, '/')[0] == e);
        assert(plain_name(split_char(p, '/')[0]));
    }
}

/// What follows a clean directory and its `/` in a clean path is a clean
/// relative path.
pub proof fn lemma_tail_clean(a: Seq<char>, rest: Seq<char>)
    requires
        clean_relative(a + seq!['/'] + rest),
    ensures
        clean_relative(rest),
{
    lemma_split_char_concat(a, rest, '/');
    let sa = split_char(a, '/');
    assert forall|i: int| 0 <= i < split_char(rest, '/').len() implies plain_name(
        #[trigger] split_char(rest, '/')[i],
    ) by {
        assert(split_char(a + seq!['/'] + rest, '/')[sa.len() + i] == split_char(rest, '/')[i]);
    }
}

/// The part of a clean path under a clean root, when not empty, is a clean
/// relative path.
pub proof fn lemma_stripped_clean(root: Seq<char>, path: Seq<char>)
    requires
        clean_path(root),
        clean_path(path),
        stripped_of(root, path) matches Some(rest) && rest.len() > 0,
    ensures
        clean_relative(stripped_of(root, path)->0),
{
    let rest = stripped_of(root, path)->0;
    if root == seq!['/'] {
        if clean_relative(path) {
            lemma_clean_relative_start(path);
        }
        if path == seq!['/'] {
            assert(rest.len() == 0);
        }
    } else {
        let n = root.len() as int;
        assert(path =~= root + seq!['/'] + rest);
        if clean_relative(path) {
            lemma_tail_clean(root, rest);
        } else {
            assert(path[0] == '/' && clean_relative(path.drop_first()));
            if clean_relative(root) {
                lemma_clean_relative_start(root);
            }
            assert(root.len() > 0);
            assert(path[0] == (root + seq!['/'] + rest)[0]);
            assert(root[0] == '/');
            if clean_relative(root) {
                lemma_clean_relative_start(root);
            }
            assert(path.drop_first() =~= root.drop_first() + seq!['/'] + rest);
            lemma_tail_clean(root.drop_first(), rest);
        }
    }
}

/// A character other than the separator lies in some piece of the split.
pub proof fn lemma_split_char_keeps(p: Seq<char>, c: char, x: char)
    requires
        x != c,
        p.contains(x),
    ensures
        exists|i: int| 0 <= i < split_char(p, c).len() && (#[trigger] split_char(p, c)[i]).contains(x),
    decreases p.len(),
{
    let q = p.drop_last();
    lemma_split_char_len(q, c);
    let sq = split_char(q, c);
    if p.last() == x {
        let last = sq.last().push(x);
        assert(split_char(p, c)[sq.len() - 1] == last);
        assert(last[last.len() - 1] == x);
    } else {
        let k = choose|k: int| 0 <= k < p.len() && p[k] == x;
        assert(k < p.len() - 1);
        assert(q[k] == x);
        lemma_split_char_keeps(q, c, x);
        let i = choose|i: int| 0 <= i < sq.len() && (#[trigger] sq[i]).contains(x);
        let j = choose|j: int| 0 <= j < sq[i].len() && sq[i][j] == x;
        if p.last() == c {
            assert(split_char(p, c)[i] == sq[i]);
        } else if i == sq.len() - 1 {
            assert(split_char(p, c)[i] == sq[i].push(p.last()));
            assert(split_char(p, c)[i][j] == x);
        } else {
            assert(split_char(p, c)[i] == sq[i]);
        }
    }
}

/// A base that `join_path` extends without a prefix: not empty, no `:`, no
/// leading pair of separators, neither starting nor ending with `\`.
pub open spec fn plain_base(acc: Seq<char>) -> bool {
    &&& acc.len() > 0
    &&& !acc.contains(':')
    &&& !starts_two_seps(acc)
    &&& acc[0] != '\\'
    &&& acc.last() != '\\'
}

/// A clean relative path holds no `\` and no `:`.
pub proof fn lemma_clean_relative_chars(p: Seq<char>)
    requires
        clean_relative(p),
    ensures
        !p.contains('\\'),
        !p.contains(':'),
{
    if p.contains('\\') {
        lemma_split_char_keeps(p, '/', '\\');
        let i = choose|i: int| 0 <= i < split_char(p, '/').len() && (#[trigger] split_char(p, '/')[i]).contains('\\');
        assert(plain_name(split_char(p, '/')[i]));
    }
    if p.contains(':') {
        lemma_split_char_keeps(p, '/', ':');
        let i = choose|i: int| 0 <= i < split_char(p, '/').len() && (#[trigger] split_char(p, '/')[i]).contains(':');
        assert(plain_name(split_char(p, '/')[i]));
    }
}

/// A clean relative path does not end with `/`.
pub proof fn lemma_clean_relative_last(p: Seq<char>)
    requires
        clean_relative(p),
    ensures
        p.len() > 0,
        p.last() != '/',
{
    lemma_clean_relative_start(p);
    if p.last() == '/' {
        let e = Seq::<char>::empty();
        assert(p.drop_last() + seq!['/'] + e =~= p);
        lemma_split_char_concat(p.drop_last(), e, '/');
        lemma_split_char_len(p.drop_last(), '/');
        assert(split_char(e, '/') =~= seq![e]);
        let n = split_char(p, '/').len();
        assert(split_char(p, '/')[n - 1] == e);
        assert(plain_name(split_char(p, '/')[n - 1]));
    }
}

/// A clean path holds no `\`, and ends with `/` only when it is the root.
pub proof fn lemma_clean_path_chars(p: Seq<char>)
    requires
        clean_path(p),
    ensures
        !p.contains('\\'),
        p != seq!['/'] ==> p.last() != '/',
{
    if p == seq!['/'] {
    } else if clean_relative(p) {
        lemma_clean_relative_chars(p);
        lemma_clean_relative_last(p);
    } else {
        let q = p.drop_first();
        lemma_clean_relative_chars(q);
        lemma_clean_relative_last(q);
        assert(p.last() == q.last());
        assert forall|k: int| 0 <= k < p.len() implies p[k] != '\\' by {
            if k > 0 {
                assert(p[k] == q[k - 1]);
            }
        }
    }
}

/// A clean path is a base that `join_path` extends without a prefix.
pub proof fn lemma_clean_is_plain_base(p: Seq<char>)
    requires
        clean_path(p),
    ensures
        plain_base(p),
{
    if p == seq!['/'] {
        assert(!p.contains(':'));
    } else if clean_relative(p) {
        lemma_clean_relative_start(p);
        lemma_clean_relative_chars(p);
        assert(p[p.len() - 1] != '\\');
        assert(p[0] != '\\');
    } else {
        let q = p.drop_first();
        lemma_clean_relative_start(q);
        lemma_clean_relative_chars(q);
        assert forall|k: int| 0 <= k < p.len() implies p[k] != ':' && p[k] != '\\' by {
            if k > 0 {
                assert(p[k] == q[k - 1]);
            }
        }
        assert(p[1] == q[0]);
    }
}

/// Joining a plain name onto a plain base gives a plain base again, ending
/// with that name.
pub proof fn lemma_join_keeps_base(acc: Seq<char>, name: Seq<char>, out: Seq<char>)
    requires
        plain_base(acc),
        plain_name(name),
        joined_onto(acc, name, out),
    ensures
        plain_base(out),
        out.len() > acc.len(),
        out[0] == acc[0],
{
    assert(name[name.len() - 1] != '\\');
    assert(name[0] != '/' && name[0] != '\\');
    if acc.last() == '/' {
        assert(out =~= acc + name);
    }
    assert(out[out.len() - 1] == name[name.len() - 1]);
    assert forall|k: int| 0 <= k < out.len() implies out[k] != ':' by {
        if k < acc.len() {
            assert(out[k] == acc[k]);
        } else if k >= out.len() - name.len() {
            assert(out[k] == name[k - (out.len() - name.len())]);
        }
    }
    if acc.len() >= 2 {
        assert(out[0] == acc[0] && out[1] == acc[1]);
    } else {
        assert(out[0] == acc[0]);
        if acc[0] == '/' {
            assert(out[1] == name[0]);
        }
    }
}

/// The strings of a vector, as character sequences.
pub open spec fn strings(v: Seq<String>) -> Seq<Seq<char>> {
    v.map_values(|x: String| x@)
}

/// The optional text of an optional string.
pub open spec fn opt_chars(o: Option<String>) -> Option<Seq<char>> {
    match o {
        Some(s) => Some(s@),
        None => None,
    }
}

/// The last name of a clean path; none for the root.
pub open spec fn file_name_of(p: Seq<char>) -> Option<Seq<char>> {
    if p == seq!['/'] {
        None
    } else {
        match last_index_of(p, '/') {
            Some(i) => Some(p.skip(i + 1)),
            None => Some(p),
        }
    }
}

/// The extension of a file name: what follows its last `.`, when that `.`
/// is not its first character.
pub open spec fn extension_of_name(n: Seq<char>) -> Option<Seq<char>> {
    match last_index_of(n, '.') {
        Some(i) => if i > 0 {
            Some(n.skip(i + 1))
        } else {
            None
        },
        None => None,
    }
}

/// The extension of a clean path's last name.
pub open spec fn extension_of(p: Seq<char>) -> Option<Seq<char>> {
    match file_name_of(p) {
        Some(n) => extension_of_name(n),
        None => None,
    }
}

/// A clean path without its last name: none for the root, empty for a
/// single relative name, the root for a single name under it.
pub open spec fn parent_of(p: Seq<char>) -> Option<Seq<char>> {
    if p == seq!['/'] {
        None
    } else {
        match last_index_of(p, '/') {
            None => Some(Seq::empty()),
            Some(i) => if i == 0 {
                Some(seq!['/'])
            } else {
                Some(p.take(i))
            },
        }
    }
}

/// The part of clean `path` under clean `root`, whole names compared: empty
/// for the root itself, none when `path` is not under `root`.
pub open spec fn stripped_of(root: Seq<char>, path: Seq<char>) -> Option<Seq<char>> {
    if root == seq!['/'] {
        if path.len() > 0 && path[0] == '/' {
            Some(path.drop_first())
        } else {
            None
        }
    } else if path == root {
        Some(Seq::empty())
    } else if path.len() > root.len() && path.take(root.len() as int) == root && path[root.len() as int]
        == '/' {
        Some(path.skip(root.len() as int + 1))
    } else {
        None
    }
}

/// A path separator on some platform.
pub open spec fn is_sep(c: char) -> bool {
    c == '/' || c == '\\'
}

/// Whether `p` starts with two separators (a network prefix on Windows).
pub open spec fn starts_two_seps(p: Seq<char>) -> bool {
    p.len() >= 2 && is_sep(p[0]) && is_sep(p[1])
}

/// `name` joined onto `base`: directly after a trailing `/`, else after a
/// separator of the platform (`/` or `\`).
pub open spec fn joined_onto(base: Seq<char>, name: Seq<char>, out: Seq<char>) -> bool {
    if base.len() > 0 && base.last() == '/' {
        out == base + name
    } else {
        out == base + seq!['/'] + name || out == base + seq!['\\'] + name
    }
}

/// `Path::join`: `p` under `root` (or `p` itself when it is absolute), as a
/// string. Stated for a plain name or clean relative path `p` (kept as it
/// is) onto a non-empty `root` without a
/// prefix (no `:`, no leading pair of separators) that does not end in `\`:
/// `p` follows a trailing `/` directly, else after one separator of the
/// platform.
#[verifier::external_body]
pub(crate) fn join_path(root: &str, p: &str) -> (r: String)
    ensures
        (plain_name(p@) || clean_relative(p@)) && root@.len() > 0 && !root@.contains(':')
            && !starts_two_seps(root@) && root@.last() != '\\' ==> joined_onto(root@, p@, r@),
{
    std::path::Path::new(root).join(p).to_string_lossy().into_owned()
}

/// `Path::strip_prefix`: `path` relative to `root`, or `None` when `root` is
/// not a prefix of it, whole components compared. For clean paths: the text
/// after `root` and its `/`, empty for `root` itself.
#[verifier::external_body]
pub(crate) fn strip_root(root: &str, path: &str) -> (r: Option<String>)
    ensures
        clean_path(root@) && clean_path(path@) ==> opt_chars(r) == stripped_of(root@, path@),
{
    std::path::Path::new(path).strip_prefix(root).ok().map(|q| q.to_string_lossy().into_owned())
}

/// `Path::extension`, when it is valid UTF-8: for a clean path, what follows
/// the last `.` of its file name, none when the name has no `.` or only a
/// leading one.
#[verifier::external_body]
pub(crate) fn path_extension(path: &str) -> (r: Option<String>)
    ensures
        clean_path(path@) ==> opt_chars(r) == extension_of(path@),
{
    std::path::Path::new(path).extension().and_then(|e| e.to_str()).map(|e| e.to_string())
}

/// `Path::file_name`, when it is valid UTF-8: for a clean path, its last
/// name, none for the root.
#[verifier::external_body]
pub(crate) fn path_file_name(path: &str) -> (r: Option<String>)
    ensures
        clean_path(path@) ==> opt_chars(r) == file_name_of(path@),
{
    std::path::Path::new(path).file_name().and_then(|n| n.to_str()).map(|n| n.to_string())
}

/// `Path::parent`, as a string: for a clean path, the path without its last
/// name (`/` under the root, empty for a single relative name), none for the
/// root.
#[verifier::external_body]
pub(crate) fn path_parent(path: &str) -> (r: Option<String>)
    ensures
        clean_path(path@) ==> opt_chars(r) == parent_of(path@),
{
    std::path::Path::new(path).parent().map(|p| p.to_string_lossy().into_owned())
}

/// `Path::is_absolute`: never for a clean relative path, which has neither a
/// root nor a prefix.
#[verifier::external_body]
pub(crate) fn path_is_absolute(path: &str) -> (r: bool)
    ensures
        clean_relative(path@) ==> !r,
{
    std::path::Path::new(path).is_absolute()
}

/// `Path::starts_with`: whether `base` is a prefix of `path`, component by
/// component; for clean paths, whether `path` lies under `base` (or is it).
#[verifier::external_body]
pub(crate) fn path_starts_with(path: &str, base: &str) -> (r: bool)
    ensures
        clean_path(base@) && clean_path(path@) ==> r == (stripped_of(base@, path@) is Some),
{
    std::path::Path::new(path).starts_with(base)
}

/// `Path::components`, each as a string: for a clean relative path, its
/// names.
#[verifier::external_body]
pub(crate) fn path_components(path: &str) -> (r: Vec<String>)
    ensures
        clean_relative(path@) ==> strings(r@) == split_char(path@, '/'),
        path@.len() == 0 ==> r@.len() == 0,
{
    std::path::Path::new(path).components().map(|c| c.as_os_str().to_string_lossy().into_owned()).collect()
}

} // verus!
