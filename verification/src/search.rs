//! Workspace content search: file filters (globs), literal matching with the
//! case and whole-word options, replacement with case preservation, the
//! shortening of long result lines, and the collection of ripgrep matches.
//!
//! Running ripgrep, walking directories and reading or writing files stay
//! with the caller; this module decides what those steps produce.
use vstd::prelude::*;
use vstd::utf8::encode_utf8;
use crate::text::occurs_at;
use crate::paths::{join_path, strip_root, clean_path, clean_relative, joined_onto, stripped_of};
use crate::text::{
    decimal, push_decimal, eq_ignore_ascii_case, eq_ignore_ascii_case_exec, byte_len, byte_offset, byte_offsets, find_from, find_from_exec, lemma_byte_offset_step,
    lemma_find_from, lemma_utf8_len_mono, utf8_len, lines, strip_end_set, chars_of, has_char, split_set, split_set_exec, lemma_split_set_len, trim, trim_str, views,
};

verus! {

broadcast use vstd::seq_lib::group_seq_properties;

/// At most this many matches are collected.
pub const MAX_MATCHES: usize = 2000;

/// At most this many files are collected.
pub const MAX_FILES: usize = 200;

/// A result line longer than this many characters is shortened around the
/// match.
pub const MAX_LINE_CHARS: usize = 240;

// ---------------------------------------------------------------------------
// File filters
// ---------------------------------------------------------------------------

/// The characters that separate globs in a filter field.
pub open spec fn glob_seps() -> Seq<char> {
    seq![',', ';', '\n']
}

/// The trimmed, non-empty pieces of `parts`, in order.
pub open spec fn nonblank_trimmed(parts: Seq<Seq<char>>) -> Seq<Seq<char>>
    decreases parts.len(),
{
    if parts.len() == 0 {
        Seq::empty()
    } else {
        let rest = nonblank_trimmed(parts.drop_last());
        let t = trim(parts.last());
        if t.len() > 0 {
            rest.push(t)
        } else {
            rest
        }
    }
}

/// The globs of a filter field: split at `,`, `;` and line breaks, trimmed,
/// blanks dropped.
pub open spec fn globs_of(raw: Seq<char>) -> Seq<Seq<char>> {
    nonblank_trimmed(split_set(raw, glob_seps()))
}

/// The globs of a filter field.
pub fn split_globs(raw: &str) -> (r: Vec<String>)
    ensures
        r@.map_values(|s: String| s@) == globs_of(raw@),
{
    let v = chars_of(raw);
    let mut seps: Vec<char> = Vec::new();
    seps.push(',');
    seps.push(';');
    seps.push('\n');
    assert(seps@ =~= glob_seps());
    let parts = split_set_exec(&v, &seps);
    let ghost ps = views(parts@);
    let mut out: Vec<String> = Vec::new();
    let mut i: usize = 0;
    while i < parts.len()
        invariant
            i <= parts@.len(),
            ps == views(parts@),
            ps == split_set(v@, glob_seps()),
            out@.map_values(|s: String| s@) == nonblank_trimmed(ps.take(i as int)),
        decreases parts.len() - i,
    {
        proof {
            assert(ps.take(i as int + 1).drop_last() =~= ps.take(i as int));
            assert(ps[i as int] == parts@[i as int]@);
        }
        let piece: String = crate::text::string_of(&parts[i]);
        let t = trim_str(piece.as_str());
        if !t.as_str().is_empty() {
            let ghost before = out@;
            out.push(t);
            proof {
                assert(out@.map_values(|s: String| s@) =~= before.map_values(|s: String| s@).push(
                    trim(ps[i as int]),
                ));
            }
        }
        i += 1;
    }
    assert(ps.take(ps.len() as int) =~= ps);
    out
}

// ---------------------------------------------------------------------------
// Glob matching
// ---------------------------------------------------------------------------

/// ASCII lowercase of a byte.
pub open spec fn lower_byte(b: u8) -> u8 {
    if 65 <= b <= 90 {
        (b + 32) as u8
    } else {
        b
    }
}

/// Where matching resumes after the `**` at `pi` (past a `/` right after it).
pub open spec fn after_stars(pat: Seq<u8>, pi: int) -> int {
    if pi + 2 < pat.len() && pat[pi + 2] == 47u8 {
        pi + 3
    } else {
        pi + 2
    }
}

/// Whether `pat[pi..]` matches `text[ti..]`: `**` (and a `/` right after it)
/// spans any text, `*` any text without `/`, `?` one byte other than `/`,
/// and any other byte itself, ASCII letters in either case.
pub open spec fn glob(pat: Seq<u8>, pi: int, text: Seq<u8>, ti: int) -> bool
    decreases pat.len() - pi, 0int, 0int,
{
    if pi >= pat.len() {
        ti == text.len()
    } else if pat[pi] == 42u8 {
        if pi + 1 < pat.len() && pat[pi + 1] == 42u8 {
            glob_any(pat, after_stars(pat, pi), text, ti)
        } else {
            glob_star(pat, pi + 1, text, ti)
        }
    } else if pat[pi] == 63u8 {
        ti < text.len() && text[ti] != 47u8 && glob(pat, pi + 1, text, ti + 1)
    } else {
        ti < text.len() && (text[ti] == pat[pi] || lower_byte(text[ti]) == lower_byte(pat[pi]))
            && glob(pat, pi + 1, text, ti + 1)
    }
}

/// Whether `pat[pi..]` matches `text[j..]` for some `j >= ti`.
pub open spec fn glob_any(pat: Seq<u8>, pi: int, text: Seq<u8>, ti: int) -> bool
    decreases pat.len() - pi, 1int, text.len() - ti,
{
    if 0 <= pi <= pat.len() && ti <= text.len() {
        glob(pat, pi, text, ti) || (ti < text.len() && glob_any(pat, pi, text, ti + 1))
    } else {
        false
    }
}

/// Whether `pat[pi..]` matches `text[j..]` for some `j >= ti` with no `/` in
/// `text[ti..j]`.
pub open spec fn glob_star(pat: Seq<u8>, pi: int, text: Seq<u8>, ti: int) -> bool
    decreases pat.len() - pi, 1int, text.len() - ti,
{
    if 0 <= pi <= pat.len() && ti <= text.len() {
        glob(pat, pi, text, ti) || (ti < text.len() && text[ti] != 47u8 && glob_star(
            pat,
            pi,
            text,
            ti + 1,
        ))
    } else {
        false
    }
}

/// Whether `pat[pi..]` matches `text[ti..]`.
pub fn glob_at(pat: &Vec<u8>, pi: usize, text: &Vec<u8>, ti: usize) -> (r: bool)
    requires
        pi <= pat@.len(),
    ensures
        r == glob(pat@, pi as int, text@, ti as int),
    decreases pat@.len() - pi,
{
    if pi == pat.len() {
        return ti == text.len();
    }
    if ti > text.len() {
        // Past the end of the text nothing more can match.
        proof {
            let pv = pat@;
            let tv = text@;
            assert(!glob_any(pv, after_stars(pv, pi as int), tv, ti as int));
            assert(!glob_star(pv, pi + 1, tv, ti as int));
        }
        return false;
    }
    let c = pat[pi];
    let tl = text.len();
    let pl = pat.len();
    if c == 42u8 {
        if pi + 1 < pat.len() && pat[pi + 1] == 42u8 {
            let mut npi = pi + 2;
            if npi < pat.len() && pat[npi] == 47u8 {
                npi += 1;
            }
            assert(npi == after_stars(pat@, pi as int));
            let mut k = ti;
            while k <= tl
                invariant
                    ti <= k <= tl + 1,
                    tl == text@.len(),
                    pi + 2 <= npi <= pat@.len(),
                    pat@.len() - npi < pat@.len() - pi,
                    glob(pat@, pi as int, text@, ti as int) == glob_any(
                        pat@,
                        npi as int,
                        text@,
                        ti as int,
                    ),
                    glob_any(pat@, npi as int, text@, ti as int) == glob_any(
                        pat@,
                        npi as int,
                        text@,
                        k as int,
                    ),
                decreases tl + 1 - k,
            {
                if glob_at(pat, npi, text, k) {
                    return true;
                }
                if k == tl {
                    return false;
                }
                k += 1;
            }
            false
        } else {
            let mut k = ti;
            while k <= tl
                invariant
                    ti <= k <= tl + 1,
                    tl == text@.len(),
                    pi < pat@.len(),
                    pl == pat@.len(),
                    glob(pat@, pi as int, text@, ti as int) == glob_star(
                        pat@,
                        pi + 1,
                        text@,
                        ti as int,
                    ),
                    glob_star(pat@, pi + 1, text@, ti as int) == glob_star(
                        pat@,
                        pi + 1,
                        text@,
                        k as int,
                    ),
                decreases tl + 1 - k,
            {
                if glob_at(pat, pi + 1, text, k) {
                    return true;
                }
                if k == tl || text[k] == 47u8 {
                    return false;
                }
                k += 1;
            }
            false
        }
    } else if c == 63u8 {
        if ti >= tl || text[ti] == 47u8 {
            return false;
        }
        glob_at(pat, pi + 1, text, ti + 1)
    } else {
        if ti >= tl {
            return false;
        }
        let t = text[ti];
        let same = t == c || lower_u8(t) == lower_u8(c);
        same && glob_at(pat, pi + 1, text, ti + 1)
    }
}

/// ASCII lowercase of a byte.
fn lower_u8(b: u8) -> (r: u8)
    ensures
        r == lower_byte(b),
{
    if 65 <= b && b <= 90 {
        b + 32
    } else {
        b
    }
}

/// `s` with every `\` made a `/`.
pub open spec fn slashes(s: Seq<u8>) -> Seq<u8> {
    s.map_values(|b: u8| if b == 92u8 {
        47u8
    } else {
        b
    })
}

/// `s` without its leading `/`s.
pub open spec fn skip_slashes(s: Seq<u8>) -> Seq<u8>
    decreases s.len(),
{
    if s.len() > 0 && s[0] == 47u8 {
        skip_slashes(s.drop_first())
    } else {
        s
    }
}

/// `**/` as bytes.
pub open spec fn any_dirs() -> Seq<u8> {
    seq![42u8, 42u8, 47u8]
}

/// Whether the glob `pat` selects the workspace-relative path `rel`: a glob
/// without `/` may match at any depth.
pub open spec fn glob_selects(pat: Seq<u8>, rel: Seq<u8>) -> bool {
    let p = skip_slashes(slashes(pat));
    let r = slashes(rel);
    if !p.contains(47u8) {
        glob(any_dirs() + p, 0, r, 0) || glob(p, 0, r, 0)
    } else {
        glob(p, 0, r, 0)
    }
}

/// The bytes of `s` with every `\` made a `/`.
fn slashed_bytes(s: &str) -> (r: Vec<u8>)
    ensures
        r@ == slashes(encode_utf8(s@)),
{
    let b = s.as_bytes();
    let mut out: Vec<u8> = Vec::new();
    let mut i: usize = 0;
    while i < b.len()
        invariant
            i <= b@.len(),
            b@ == encode_utf8(s@),
            out@ == slashes(b@.take(i as int)),
        decreases b@.len() - i,
    {
        let x = b[i];
        if x == 92u8 {
            out.push(47u8);
        } else {
            out.push(x);
        }
        i += 1;
        assert(out@ =~= slashes(b@.take(i as int)));
    }
    assert(b@.take(b@.len() as int) =~= b@);
    out
}

/// Whether the glob `pat` selects the workspace-relative path `rel`.
#[verifier::spinoff_prover]
#[verifier::rlimit(40)]
pub fn glob_match(pat: &str, rel: &str) -> (r: bool)
    ensures
        r == glob_selects(encode_utf8(pat@), encode_utf8(rel@)),
{
    let p0 = slashed_bytes(pat);
    let r = slashed_bytes(rel);
    let mut a: usize = 0;
    assert(p0@.skip(0) =~= p0@);
    while a < p0.len() && p0[a] == 47u8
        invariant
            a <= p0@.len(),
            skip_slashes(p0@) == skip_slashes(p0@.skip(a as int)),
        decreases p0@.len() - a,
    {
        assert(p0@.skip(a as int).drop_first() =~= p0@.skip(a as int + 1));
        a += 1;
    }
    let mut p: Vec<u8> = Vec::new();
    let mut i = a;
    let mut has_slash = false;
    while i < p0.len()
        invariant
            a <= i <= p0@.len(),
            p@ == p0@.subrange(a as int, i as int),
            has_slash == p@.contains(47u8),
        decreases p0@.len() - i,
    {
        let ghost before = p@;
        p.push(p0[i]);
        if p0[i] == 47u8 {
            has_slash = true;
            assert(p@[p@.len() - 1] == 47u8);
        } else if has_slash {
            proof {
                let k = choose|k: int| 0 <= k < before.len() && before[k] == 47u8;
                assert(p@[k] == 47u8);
            }
        } else {
            proof {
                assert forall|k: int| 0 <= k < p@.len() implies p@[k] != 47u8 by {
                    if k < before.len() {
                        assert(p@[k] == before[k]);
                    }
                }
            }
        }
        i += 1;
        assert(p@ =~= p0@.subrange(a as int, i as int));
    }
    assert(p@ =~= p0@.skip(a as int));
    if !has_slash {
        let mut full: Vec<u8> = Vec::new();
        full.push(42u8);
        full.push(42u8);
        full.push(47u8);
        let mut j: usize = 0;
        while j < p.len()
            invariant
                j <= p@.len(),
                full@ == any_dirs() + p@.take(j as int),
            decreases p@.len() - j,
        {
            full.push(p[j]);
            j += 1;
            assert(full@ =~= any_dirs() + p@.take(j as int));
        }
        assert(p@.take(p@.len() as int) =~= p@);
        glob_at(&full, 0, &r, 0) || glob_at(&p, 0, &r, 0)
    } else {
        glob_at(&p, 0, &r, 0)
    }
}

/// The texts of a list of strings.
pub open spec fn texts(v: Seq<String>) -> Seq<Seq<char>> {
    v.map_values(|s: String| s@)
}

/// Whether `rel` passes the includes and excludes filters: some includes glob
/// selects it (or there is none) and no excludes glob does.
pub open spec fn path_selected(rel: Seq<char>, includes: Seq<Seq<char>>, excludes: Seq<Seq<char>>) -> bool {
    &&& (includes.len() == 0 || exists|k: int|
        0 <= k < includes.len() && #[trigger] glob_selects(encode_utf8(includes[k]), encode_utf8(rel)))
    &&& !exists|k: int|
        0 <= k < excludes.len() && #[trigger] glob_selects(encode_utf8(excludes[k]), encode_utf8(rel))
}

/// Whether some glob of `globs` selects `rel`.
fn any_glob_selects(globs: &Vec<String>, rel: &str) -> (r: bool)
    ensures
        r == exists|k: int|
            0 <= k < globs@.len() && #[trigger] glob_selects(
                encode_utf8(texts(globs@)[k]),
                encode_utf8(rel@),
            ),
{
    let mut i: usize = 0;
    while i < globs.len()
        invariant
            i <= globs@.len(),
            forall|k: int|
                0 <= k < i ==> !#[trigger] glob_selects(
                    encode_utf8(texts(globs@)[k]),
                    encode_utf8(rel@),
                ),
        decreases globs.len() - i,
    {
        assert(texts(globs@)[i as int] == globs@[i as int]@);
        if glob_match(globs[i].as_str(), rel) {
            return true;
        }
        i += 1;
    }
    false
}

/// Whether a workspace-relative path passes the includes and excludes filters.
pub fn path_passes_filters(rel: &str, includes: &Vec<String>, excludes: &Vec<String>) -> (r: bool)
    ensures
        r == path_selected(rel@, texts(includes@), texts(excludes@)),
{
    if includes.len() > 0 && !any_glob_selects(includes, rel) {
        return false;
    }
    !any_glob_selects(excludes, rel)
}

// ---------------------------------------------------------------------------
// Unicode character classes and case mapping (std)
// ---------------------------------------------------------------------------

/// What `char::is_alphanumeric` answers for `c`.
pub uninterp spec fn is_alnum(c: char) -> bool;

/// What `char::is_alphabetic` answers for `c`.
pub uninterp spec fn is_alpha(c: char) -> bool;

/// What `char::is_uppercase` answers for `c`.
pub uninterp spec fn is_upper(c: char) -> bool;

/// What `char::is_lowercase` answers for `c`.
pub uninterp spec fn is_lower(c: char) -> bool;

/// What `str::to_lowercase` gives for `s`.
pub uninterp spec fn lowercase(s: Seq<char>) -> Seq<char>;

/// What `str::to_uppercase` gives for `s`.
pub uninterp spec fn uppercase(s: Seq<char>) -> Seq<char>;

/// `char::is_alphanumeric`: the Unicode `Alphabetic` or `Numeric` property.
#[verifier::external_body]
fn char_is_alphanumeric(c: char) -> (r: bool)
    ensures
        r == is_alnum(c),
{
    c.is_alphanumeric()
}

/// `char::is_alphabetic`: the Unicode `Alphabetic` property.
#[verifier::external_body]
fn char_is_alphabetic(c: char) -> (r: bool)
    ensures
        r == is_alpha(c),
{
    c.is_alphabetic()
}

/// `char::is_uppercase`: the Unicode `Uppercase` property.
#[verifier::external_body]
fn char_is_uppercase(c: char) -> (r: bool)
    ensures
        r == is_upper(c),
{
    c.is_uppercase()
}

/// `char::is_lowercase`: the Unicode `Lowercase` property.
#[verifier::external_body]
fn char_is_lowercase(c: char) -> (r: bool)
    ensures
        r == is_lower(c),
{
    c.is_lowercase()
}

/// `str::to_lowercase`: the Unicode lowercase of `s`; every character maps
/// to at least one, so only the empty text gives the empty text.
#[verifier::external_body]
pub(crate) fn str_to_lowercase(s: &str) -> (r: String)
    ensures
        r@ == lowercase(s@),
        (r@.len() == 0) == (s@.len() == 0),
{
    s.to_lowercase()
}

/// `str::to_uppercase`: the Unicode uppercase of `s`; every character maps
/// to at least one, so only the empty text gives the empty text.
#[verifier::external_body]
pub(crate) fn str_to_uppercase(s: &str) -> (r: String)
    ensures
        r@ == uppercase(s@),
        (r@.len() == 0) == (s@.len() == 0),
{
    s.to_uppercase()
}

// ---------------------------------------------------------------------------
// Literal matching
// ---------------------------------------------------------------------------

/// A character that belongs to a word.
pub open spec fn word_char(c: char) -> bool {
    is_alnum(c) || c == '_'
}

/// The characters `h[i..j]` stand as a whole word: no word character right
/// before or right after.
pub open spec fn whole_at(h: Seq<char>, i: int, j: int) -> bool {
    (i == 0 || !word_char(h[i - 1])) && (j >= h.len() || !word_char(h[j]))
}

/// The spans (character indices) of the leftmost non-overlapping occurrences
/// of `n` in `h` from index `i`, kept when whole words are not asked for or
/// the occurrence is one.
pub open spec fn exact_spans(h: Seq<char>, n: Seq<char>, ww: bool, i: int) -> Seq<(int, int)>
    decreases h.len() + 1 - i,
{
    if n.len() == 0 || i < 0 {
        Seq::empty()
    } else {
        match find_from(h, n, i) {
            Some(k) => {
                proof {
                    lemma_find_from(h, n, i);
                }
                let e = k + n.len();
                let rest = exact_spans(h, n, ww, e);
                if !ww || whole_at(h, k, e) {
                    seq![(k, e)] + rest
                } else {
                    rest
                }
            },
            None => Seq::empty(),
        }
    }
}

/// The spans of the leftmost non-overlapping windows of `nl.len()`
/// characters from index `i` whose lowercase is `nl`.
pub open spec fn folded_spans(h: Seq<char>, nl: Seq<char>, ww: bool, i: int) -> Seq<(int, int)>
    decreases h.len() - i,
{
    let m = nl.len() as int;
    if m == 0 || i < 0 || i + m > h.len() {
        Seq::empty()
    } else if lowercase(h.subrange(i, i + m)) == nl {
        let rest = folded_spans(h, nl, ww, i + m);
        if !ww || whole_at(h, i, i + m) {
            seq![(i, i + m)] + rest
        } else {
            rest
        }
    } else {
        folded_spans(h, nl, ww, i + 1)
    }
}

/// The matches of `n` in `h`, as character spans.
pub open spec fn literal_spans(h: Seq<char>, n: Seq<char>, cs: bool, ww: bool) -> Seq<(int, int)> {
    if n.len() == 0 {
        Seq::empty()
    } else if cs {
        exact_spans(h, n, ww, 0)
    } else {
        folded_spans(h, lowercase(n), ww, 0)
    }
}

/// Character spans as byte spans.
pub open spec fn byte_spans(h: Seq<char>, sp: Seq<(int, int)>) -> Seq<(usize, usize)> {
    sp.map_values(|p: (int, int)| (byte_offset(h, p.0) as usize, byte_offset(h, p.1) as usize))
}

/// A character that belongs to a word.
pub fn is_word_char(c: char) -> (r: bool)
    ensures
        r == word_char(c),
{
    char_is_alphanumeric(c) || c == '_'
}

/// Whether `h[i..j]` stands as a whole word.
fn whole_at_exec(h: &Vec<char>, i: usize, j: usize) -> (r: bool)
    requires
        i <= j <= h@.len(),
    ensures
        r == whole_at(h@, i as int, j as int),
{
    let before_ok = i == 0 || !is_word_char(h[i - 1]);
    let after_ok = j >= h.len() || !is_word_char(h[j]);
    before_ok && after_ok
}

/// Byte offsets grow with the character index.
pub proof fn lemma_byte_offset_strict(s: Seq<char>, i: int, j: int)
    requires
        0 <= i < j <= s.len(),
    ensures
        byte_offset(s, i) < byte_offset(s, j),
{
    lemma_utf8_len_mono(s, i, j);
    lemma_utf8_len_mono(s, i + 1, j);
    lemma_byte_offset_step(s, i);
}

/// The bytes `start..end` of `h` are a whole word: both are character
/// boundaries and the characters between them stand as a whole word.
pub open spec fn whole_word_bytes(h: Seq<char>, start: int, end: int) -> bool {
    exists|i: int, j: int|
        0 <= i <= j <= h.len() && byte_offset(h, i) == start && byte_offset(h, j) == end
            && whole_at(h, i, j)
}

/// The character index at byte offset `b` of `v` (whose byte offsets are
/// `offs`), if `b` is a character boundary.
fn index_at_byte(offs: &Vec<usize>, v: &Vec<char>, b: usize) -> (r: Option<usize>)
    requires
        offs@.len() == v@.len() + 1,
        forall|k: int| 0 <= k <= v@.len() ==> offs@[k] == byte_offset(v@, k),
    ensures
        r matches Some(i) ==> i <= v@.len() && byte_offset(v@, i as int) == b,
        r is None ==> forall|i: int| 0 <= i <= v@.len() ==> byte_offset(v@, i) != b,
{
    let mut i: usize = 0;
    while i < offs.len()
        invariant
            i <= offs@.len(),
            offs@.len() == v@.len() + 1,
            forall|k: int| 0 <= k <= v@.len() ==> offs@[k] == byte_offset(v@, k),
            forall|k: int| 0 <= k < i ==> byte_offset(v@, k) != b,
        decreases offs.len() - i,
    {
        if offs[i] == b {
            return Some(i);
        }
        i += 1;
    }
    None
}

/// Whether the bytes `start..end` of `hay` are a whole word.
pub fn is_whole_word(hay: &str, start: usize, end: usize) -> (r: bool)
    ensures
        r == whole_word_bytes(hay@, start as int, end as int),
{
    let v = chars_of(hay);
    let total = byte_len(hay);
    let offs = byte_offsets(&v, total);
    let oi = index_at_byte(&offs, &v, start);
    let oj = index_at_byte(&offs, &v, end);
    match (oi, oj) {
        (Some(i), Some(j)) => {
            if i > j {
                proof {
                    assert forall|a: int, b: int|
                        0 <= a <= b <= v@.len() && byte_offset(v@, a) == start && byte_offset(
                            v@,
                            b,
                        ) == end implies !whole_at(v@, a, b) by {
                        if a != i as int {
                            if a < i {
                                lemma_byte_offset_strict(v@, a, i as int);
                            } else {
                                lemma_byte_offset_strict(v@, i as int, a);
                            }
                        }
                        if b != j as int {
                            if b < j {
                                lemma_byte_offset_strict(v@, b, j as int);
                            } else {
                                lemma_byte_offset_strict(v@, j as int, b);
                            }
                        }
                    }
                }
                return false;
            }
            let r = whole_at_exec(&v, i, j);
            proof {
                if r {
                    assert(whole_at(v@, i as int, j as int));
                } else {
                    assert forall|a: int, b: int|
                        0 <= a <= b <= v@.len() && byte_offset(v@, a) == start && byte_offset(
                            v@,
                            b,
                        ) == end implies !whole_at(v@, a, b) by {
                        if a != i as int {
                            if a < i {
                                lemma_byte_offset_strict(v@, a, i as int);
                            } else {
                                lemma_byte_offset_strict(v@, i as int, a);
                            }
                        }
                        if b != j as int {
                            if b < j {
                                lemma_byte_offset_strict(v@, b, j as int);
                            } else {
                                lemma_byte_offset_strict(v@, j as int, b);
                            }
                        }
                    }
                }
            }
            r
        },
        _ => false,
    }
}

/// The exact-case matches of `n` in `h`, as character spans.
fn exact_spans_exec(h: &Vec<char>, n: &Vec<char>, ww: bool) -> (r: Vec<(usize, usize)>)
    requires
        n@.len() > 0,
    ensures
        r@.map_values(|p: (usize, usize)| (p.0 as int, p.1 as int)) == exact_spans(h@, n@, ww, 0),
        forall|k: int| 0 <= k < r@.len() ==> (#[trigger] r@[k]).0 <= r@[k].1 <= h@.len(),
{
    let mut out: Vec<(usize, usize)> = Vec::new();
    let mut from: usize = 0;
    let hl = h.len();
    loop
        invariant
            n@.len() > 0,
            hl == h@.len(),
            from <= h@.len() + 1,
            exact_spans(h@, n@, ww, 0) == out@.map_values(|p: (usize, usize)| (p.0 as int, p.1 as int))
                + exact_spans(h@, n@, ww, from as int),
            forall|k: int| 0 <= k < out@.len() ==> (#[trigger] out@[k]).0 <= out@[k].1 <= h@.len(),
        decreases h@.len() + 1 - from,
    {
        proof {
            lemma_find_from(h@, n@, from as int);
        }
        match find_from_exec(h, n, from) {
            Some(k) => {
                let e = k + n.len();
                let ghost before = out@;
                if !ww || whole_at_exec(h, k, e) {
                    out.push((k, e));
                    proof {
                        assert(out@.map_values(|p: (usize, usize)| (p.0 as int, p.1 as int)) =~= before.map_values(
                            |p: (usize, usize)| (p.0 as int, p.1 as int),
                        ) + seq![(k as int, e as int)]);
                    }
                }
                from = e;
            },
            None => {
                assert(out@.map_values(|p: (usize, usize)| (p.0 as int, p.1 as int)) + Seq::<(int, int)>::empty()
                    =~= out@.map_values(|p: (usize, usize)| (p.0 as int, p.1 as int)));
                return out;
            },
        }
    }
}

/// The case-folded matches: windows of `nl.len()` characters whose lowercase
/// is `nl`, as character spans.
fn folded_spans_exec(h: &Vec<char>, nl: &Vec<char>, ww: bool) -> (r: Vec<(usize, usize)>)
    requires
        nl@.len() > 0,
    ensures
        r@.map_values(|p: (usize, usize)| (p.0 as int, p.1 as int)) == folded_spans(h@, nl@, ww, 0),
        forall|k: int| 0 <= k < r@.len() ==> (#[trigger] r@[k]).0 <= r@[k].1 <= h@.len(),
{
    let mut out: Vec<(usize, usize)> = Vec::new();
    let m = nl.len();
    let hl = h.len();
    let mut i: usize = 0;
    while i <= hl && m <= hl - i
        invariant
            m == nl@.len() > 0,
            hl == h@.len(),
            folded_spans(h@, nl@, ww, 0) == out@.map_values(|p: (usize, usize)| (p.0 as int, p.1 as int))
                + folded_spans(h@, nl@, ww, i as int),
            forall|k: int| 0 <= k < out@.len() ==> (#[trigger] out@[k]).0 <= out@[k].1 <= h@.len(),
        decreases hl + 1 - i,
    {
        let window = crate::text::string_of_range(h, i, i + m);
        let low = chars_of(str_to_lowercase(window.as_str()).as_str());
        if crate::text::seq_eq(&low, nl) {
            let ghost before = out@;
            if !ww || whole_at_exec(h, i, i + m) {
                out.push((i, i + m));
                proof {
                    assert(out@.map_values(|p: (usize, usize)| (p.0 as int, p.1 as int)) =~= before.map_values(
                        |p: (usize, usize)| (p.0 as int, p.1 as int),
                    ) + seq![(i as int, (i + m) as int)]);
                }
            }
            i = i + m;
        } else {
            i = i + 1;
        }
    }
    assert(out@.map_values(|p: (usize, usize)| (p.0 as int, p.1 as int)) + Seq::<(int, int)>::empty()
        =~= out@.map_values(|p: (usize, usize)| (p.0 as int, p.1 as int)));
    out
}

/// The matches of `needle` in `hay`, as character spans.
pub fn literal_char_spans(hay: &Vec<char>, needle: &str, case_sensitive: bool, whole_word: bool) -> (r: Vec<(usize, usize)>)
    ensures
        r@.map_values(|p: (usize, usize)| (p.0 as int, p.1 as int)) == literal_spans(hay@, needle@, case_sensitive, whole_word),
        forall|k: int| 0 <= k < r@.len() ==> (#[trigger] r@[k]).0 <= r@[k].1 <= hay@.len(),
{
    let n = chars_of(needle);
    if n.len() == 0 {
        let r: Vec<(usize, usize)> = Vec::new();
        assert(r@.map_values(|p: (usize, usize)| (p.0 as int, p.1 as int)) =~= Seq::<(int, int)>::empty());
        return r;
    }
    if case_sensitive {
        return exact_spans_exec(hay, &n, whole_word);
    }
    let nl = chars_of(str_to_lowercase(needle).as_str());
    if nl.len() == 0 {
        let r: Vec<(usize, usize)> = Vec::new();
        assert(r@.map_values(|p: (usize, usize)| (p.0 as int, p.1 as int)) =~= Seq::<(int, int)>::empty());
        return r;
    }
    folded_spans_exec(hay, &nl, whole_word)
}

/// The matches of `needle` in `hay`, as byte spans: with `case_sensitive`
/// the leftmost non-overlapping occurrences, else the windows whose
/// lowercase equals the lowercase needle; with `whole_word` only those that
/// stand as whole words.
pub fn find_literal_spans(hay: &str, needle: &str, case_sensitive: bool, whole_word: bool) -> (r: Vec<(usize, usize)>)
    ensures
        r@ == byte_spans(hay@, literal_spans(hay@, needle@, case_sensitive, whole_word)),
{
    let v = chars_of(hay);
    let sp = literal_char_spans(&v, needle, case_sensitive, whole_word);
    let total = byte_len(hay);
    let offs = byte_offsets(&v, total);
    let ghost csp = sp@.map_values(|p: (usize, usize)| (p.0 as int, p.1 as int));
    let mut out: Vec<(usize, usize)> = Vec::new();
    let mut k: usize = 0;
    while k < sp.len()
        invariant
            k <= sp@.len(),
            v@ == hay@,
            offs@.len() == v@.len() + 1,
            forall|q: int| 0 <= q <= v@.len() ==> offs@[q] == byte_offset(v@, q),
            forall|q: int| 0 <= q < sp@.len() ==> (#[trigger] sp@[q]).0 <= sp@[q].1 <= v@.len(),
            csp == sp@.map_values(|p: (usize, usize)| (p.0 as int, p.1 as int)),
            out@ == byte_spans(v@, csp.take(k as int)),
        decreases sp.len() - k,
    {
        let (a, b) = sp[k];
        out.push((offs[a], offs[b]));
        k += 1;
        assert(out@ =~= byte_spans(v@, csp.take(k as int)));
    }
    assert(csp.take(csp.len() as int) =~= csp);
    out
}

// ---------------------------------------------------------------------------
// Replacement
// ---------------------------------------------------------------------------

/// Being a letter, as a predicate.
pub open spec fn alpha_pred() -> spec_fn(char) -> bool {
    |c: char| is_alpha(c)
}

/// The letters of `s`, in order.
pub open spec fn letters_of(s: Seq<char>) -> Seq<char> {
    s.filter(alpha_pred())
}

pub open spec fn all_upper(s: Seq<char>) -> bool {
    forall|i: int| 0 <= i < s.len() ==> is_upper(#[trigger] s[i])
}

pub open spec fn all_lower(s: Seq<char>) -> bool {
    forall|i: int| 0 <= i < s.len() ==> is_lower(#[trigger] s[i])
}

/// The replacement written in place of `matched` when case is preserved:
/// upper case for an all-caps match, lower case for an all-lowercase one,
/// a capital first letter for a capitalised one, else as typed.
pub open spec fn preserved_case(matched: Seq<char>, repl: Seq<char>) -> Seq<char> {
    let letters = letters_of(matched);
    if repl.len() == 0 || matched.len() == 0 || letters.len() == 0 {
        repl
    } else if all_upper(letters) {
        uppercase(repl)
    } else if all_lower(letters) {
        lowercase(repl)
    } else if is_upper(letters[0]) && all_lower(letters.drop_first()) {
        uppercase(seq![repl[0]]) + repl.drop_first()
    } else {
        repl
    }
}

/// The letters of `v`.
fn letters_exec(v: &Vec<char>) -> (r: Vec<char>)
    ensures
        r@ == letters_of(v@),
{
    let mut out: Vec<char> = Vec::new();
    let mut i: usize = 0;
    while i < v.len()
        invariant
            i <= v@.len(),
            out@ == v@.take(i as int).filter(alpha_pred()),
        decreases v.len() - i,
    {
        proof {
            assert(v@.take(i as int + 1) =~= v@.take(i as int).push(v@[i as int]));
            v@.take(i as int).lemma_filter_push(v@[i as int], alpha_pred());
        }
        if char_is_alphabetic(v[i]) {
            out.push(v[i]);
        }
        i += 1;
    }
    assert(v@.take(v@.len() as int) =~= v@);
    out
}

/// Whether every character of `v[from..]` is upper case (`upper`) or lower
/// case (`!upper`).
fn all_cased(v: &Vec<char>, from: usize, upper: bool) -> (r: bool)
    requires
        from <= v@.len(),
    ensures
        upper ==> r == all_upper(v@.skip(from as int)),
        !upper ==> r == all_lower(v@.skip(from as int)),
{
    let mut i = from;
    while i < v.len()
        invariant
            from <= i <= v@.len(),
            upper ==> forall|k: int| from <= k < i ==> is_upper(#[trigger] v@[k]),
            !upper ==> forall|k: int| from <= k < i ==> is_lower(#[trigger] v@[k]),
        decreases v.len() - i,
    {
        let ok = if upper {
            char_is_uppercase(v[i])
        } else {
            char_is_lowercase(v[i])
        };
        if !ok {
            proof {
                assert(v@.skip(from as int)[i - from] == v@[i as int]);
            }
            return false;
        }
        i += 1;
    }
    proof {
        assert forall|k: int| 0 <= k < v@.skip(from as int).len() implies (upper ==> is_upper(
            #[trigger] v@.skip(from as int)[k],
        )) && (!upper ==> is_lower(v@.skip(from as int)[k])) by {
            assert(v@.skip(from as int)[k] == v@[from + k]);
        }
    }
    true
}

/// The replacement to write in place of `matched`, keeping its case pattern.
pub fn apply_preserve_case(matched: &str, replacement: &str) -> (r: String)
    ensures
        r@ == preserved_case(matched@, replacement@),
{
    let m = chars_of(matched);
    let rv = chars_of(replacement);
    if rv.len() == 0 || m.len() == 0 {
        return replacement.to_string();
    }
    let letters = letters_exec(&m);
    if letters.len() == 0 {
        return replacement.to_string();
    }
    assert(letters@.skip(0) =~= letters@);
    if all_cased(&letters, 0, true) {
        return str_to_uppercase(replacement);
    }
    if all_cased(&letters, 0, false) {
        return str_to_lowercase(replacement);
    }
    assert(letters@.skip(1) =~= letters@.drop_first());
    if char_is_uppercase(letters[0]) && all_cased(&letters, 1, false) {
        let first = crate::text::string_of_range(&rv, 0, 1);
        assert(first@ =~= seq![rv@[0]]);
        let mut out = str_to_uppercase(first.as_str());
        let n = rv.len();
        crate::text::push_chars(&mut out, &rv, 1, n);
        assert(rv@.subrange(1, n as int) =~= rv@.drop_first());
        return out;
    }
    replacement.to_string()
}

/// What is written in place of a match.
pub open spec fn replacement_for(matched: Seq<char>, repl: Seq<char>, preserve: bool) -> Seq<char> {
    if preserve {
        preserved_case(matched, repl)
    } else {
        repl
    }
}

/// `h[last..]` with the spans `sp[k..]` replaced; a span that starts before
/// `last` or does not fit is passed over.
pub open spec fn spliced(
    h: Seq<char>,
    sp: Seq<(int, int)>,
    repl: Seq<char>,
    preserve: bool,
    k: int,
    last: int,
) -> Seq<char>
    decreases sp.len() - k,
{
    if k < 0 || k >= sp.len() {
        h.subrange(last, h.len() as int)
    } else {
        let a = sp[k].0;
        let b = sp[k].1;
        if a < last || b > h.len() || a > b {
            spliced(h, sp, repl, preserve, k + 1, last)
        } else {
            h.subrange(last, a) + replacement_for(h.subrange(a, b), repl, preserve) + spliced(
                h,
                sp,
                repl,
                preserve,
                k + 1,
                b,
            )
        }
    }
}

/// The text after replacing every literal match, and how many matches there
/// were.
pub open spec fn replaced_text(
    h: Seq<char>,
    n: Seq<char>,
    cs: bool,
    ww: bool,
    repl: Seq<char>,
    preserve: bool,
) -> (Seq<char>, nat) {
    let sp = literal_spans(h, n, cs, ww);
    if sp.len() == 0 {
        (h, 0)
    } else {
        (spliced(h, sp, repl, preserve, 0, 0), sp.len())
    }
}

/// Replaces every literal match of `query` in `text` (with the case and
/// whole-word options) by `replacement`, its case pattern kept when
/// `preserve_case` is set; also gives the number of matches.
pub fn replace_text_literal(
    text: &str,
    query: &str,
    case_sensitive: bool,
    whole_word: bool,
    replacement: &str,
    preserve_case: bool,
) -> (r: (String, usize))
    ensures
        r.0@ == replaced_text(text@, query@, case_sensitive, whole_word, replacement@, preserve_case).0,
        r.1 == replaced_text(text@, query@, case_sensitive, whole_word, replacement@, preserve_case).1,
{
    let h = chars_of(text);
    let sp = literal_char_spans(&h, query, case_sensitive, whole_word);
    let ghost csp = sp@.map_values(|p: (usize, usize)| (p.0 as int, p.1 as int));
    if sp.len() == 0 {
        return (text.to_string(), 0);
    }
    let mut out = String::new();
    let mut last: usize = 0;
    let mut k: usize = 0;
    while k < sp.len()
        invariant
            k <= sp@.len(),
            last <= h@.len(),
            h@ == text@,
            csp == sp@.map_values(|p: (usize, usize)| (p.0 as int, p.1 as int)),
            out@ + spliced(h@, csp, replacement@, preserve_case, k as int, last as int) == spliced(
                h@,
                csp,
                replacement@,
                preserve_case,
                0,
                0,
            ),
        decreases sp.len() - k,
    {
        let (a, b) = sp[k];
        assert(csp[k as int] == (a as int, b as int));
        if a < last || b > h.len() || a > b {
            k += 1;
        } else {
            let ghost before = out@;
            crate::text::push_chars(&mut out, &h, last, a);
            let matched = crate::text::string_of_range(&h, a, b);
            if preserve_case {
                let piece = apply_preserve_case(matched.as_str(), replacement);
                out.append(piece.as_str());
            } else {
                out.append(replacement);
            }
            proof {
                assert(out@ == before + h@.subrange(last as int, a as int) + replacement_for(
                    h@.subrange(a as int, b as int),
                    replacement@,
                    preserve_case,
                ));
                assert(out@ + spliced(h@, csp, replacement@, preserve_case, k + 1, b as int) =~= before
                    + spliced(h@, csp, replacement@, preserve_case, k as int, last as int));
            }
            last = b;
            k += 1;
        }
    }
    let n = h.len();
    crate::text::push_chars(&mut out, &h, last, n);
    (out, sp.len())
}

// ---------------------------------------------------------------------------
// Result lines
// ---------------------------------------------------------------------------

/// The first character index from `i` whose byte offset is at least `start`,
/// or `0` when there is none.
pub open spec fn first_char_from(h: Seq<char>, start: int, i: int) -> int
    decreases h.len() - i,
{
    if i < 0 || i >= h.len() {
        0
    } else if byte_offset(h, i) >= start {
        i
    } else {
        first_char_from(h, start, i + 1)
    }
}

pub open spec fn min_int(a: int, b: int) -> int {
    if a <= b {
        a
    } else {
        b
    }
}

pub open spec fn max_int(a: int, b: int) -> int {
    if a >= b {
        a
    } else {
        b
    }
}

/// `…`, the mark of a cut line.
pub open spec fn ellipsis() -> Seq<char> {
    seq!['…']
}

/// A result line as shown, with the byte span of the match in it: a line of
/// at most [`MAX_LINE_CHARS`] characters is kept whole; a longer one is cut
/// to that many characters around the match (a quarter of the window before
/// it), with `…` where text was cut off.
pub open spec fn hit_line(h: Seq<char>, start: int, end: int) -> (Seq<char>, int, int) {
    let n = h.len() as int;
    let total = utf8_len(h) as int;
    if n <= MAX_LINE_CHARS {
        let s = min_int(start, total);
        (h, s, max_int(min_int(end, total), s))
    } else {
        let mc = first_char_from(h, start, 0);
        let from0 = if mc >= MAX_LINE_CHARS / 4 {
            mc - MAX_LINE_CHARS / 4
        } else {
            0
        };
        let to = min_int(from0 + MAX_LINE_CHARS, n);
        let from = if to >= MAX_LINE_CHARS {
            to - MAX_LINE_CHARS
        } else {
            0
        };
        let bf = byte_offset(h, from) as int;
        let bt = byte_offset(h, to) as int;
        let shown = (if from > 0 {
            ellipsis()
        } else {
            Seq::empty()
        }) + h.subrange(from, to) + (if to < n {
            ellipsis()
        } else {
            Seq::empty()
        });
        let prefix: int = if from > 0 {
            1
        } else {
            0
        };
        let hs0 = if start >= bf {
            start - bf + prefix
        } else {
            prefix
        };
        let he0 = if end >= bf {
            min_int(end, bt) - bf + prefix
        } else {
            prefix
        };
        let sl = utf8_len(shown) as int;
        let hs = min_int(hs0, sl);
        (shown, hs, max_int(min_int(he0, sl), hs))
    }
}

/// Shortens a long result line around its match and moves the match's byte
/// span along.
#[verifier::rlimit(60)]
#[verifier::spinoff_prover]
pub fn truncate_hit_line(line: &str, start: usize, end: usize) -> (r: (String, usize, usize))
    ensures
        r.0@ == hit_line(line@, start as int, end as int).0,
        r.1 == hit_line(line@, start as int, end as int).1,
        r.2 == hit_line(line@, start as int, end as int).2,
{
    let h = chars_of(line);
    let total = byte_len(line);
    let n = h.len();
    if n <= MAX_LINE_CHARS {
        let s = if start <= total {
            start
        } else {
            total
        };
        let e0 = if end <= total {
            end
        } else {
            total
        };
        let e = if e0 >= s {
            e0
        } else {
            s
        };
        return (line.to_string(), s, e);
    }
    let offs = byte_offsets(&h, total);
    let mut i: usize = 0;
    while i < n && offs[i] < start
        invariant
            i <= n == h@.len(),
            offs@.len() == h@.len() + 1,
            forall|q: int| 0 <= q <= h@.len() ==> offs@[q] == byte_offset(h@, q),
            first_char_from(h@, start as int, 0) == first_char_from(h@, start as int, i as int),
        decreases n - i,
    {
        i += 1;
    }
    let mc = if i < n {
        i
    } else {
        0
    };
    let quarter = MAX_LINE_CHARS / 4;
    let from0 = if mc >= quarter {
        mc - quarter
    } else {
        0
    };
    let to = if from0 <= n - MAX_LINE_CHARS {
        from0 + MAX_LINE_CHARS
    } else {
        n
    };
    let from = if to >= MAX_LINE_CHARS {
        to - MAX_LINE_CHARS
    } else {
        0
    };
    let bf = offs[from];
    let bt = offs[to];
    proof {
        lemma_utf8_len_mono(h@, from as int, to as int);
        assert(h@.take(h@.len() as int) =~= h@);
    }
    let mut shown = String::new();
    if from > 0 {
        crate::text::push_char(&mut shown, '…');
    }
    crate::text::push_chars(&mut shown, &h, from, to);
    if to < n {
        crate::text::push_char(&mut shown, '…');
    }
    assert(shown@ =~= (if from > 0 {
        ellipsis()
    } else {
        Seq::empty()
    }) + h@.subrange(from as int, to as int) + (if to < n {
        ellipsis()
    } else {
        Seq::empty()
    }));
    let prefix: usize = if from > 0 {
        1
    } else {
        0
    };
    let sl = byte_len(shown.as_str());
    let hs0: usize = if start >= bf {
        if start - bf <= sl {
            start - bf + prefix
        } else {
            sl + 1
        }
    } else {
        prefix
    };
    let he0: usize = if end >= bf {
        let m = if end <= bt {
            end
        } else {
            bt
        };
        m - bf + prefix
    } else {
        prefix
    };
    let hs = if hs0 <= sl {
        hs0
    } else {
        sl
    };
    let he1 = if he0 <= sl {
        he0
    } else {
        sl
    };
    let he = if he1 >= hs {
        he1
    } else {
        hs
    };
    (shown, hs, he)
}

// ---------------------------------------------------------------------------
// Search results
// ---------------------------------------------------------------------------

/// One matching line.
#[derive(Clone, Debug, PartialEq, Eq)]
pub struct SearchHit {
    pub line_no: u32,
    pub line: String,
    pub start: usize,
    pub end: usize,
}

/// The matches of one file.
#[derive(Clone, Debug, PartialEq, Eq)]
pub struct SearchFileHits {
    pub path: String,
    pub rel: String,
    pub hits: Vec<SearchHit>,
}

/// What a search found.
#[derive(Clone, Debug, PartialEq, Eq)]
pub struct SearchOutcome {
    pub files: Vec<SearchFileHits>,
    pub match_count: usize,
    pub truncated: bool,
    pub error: Option<String>,
}

/// A search as the panel asks for it.
#[derive(Clone, Debug)]
pub struct SearchRequest {
    pub root: String,
    pub query: String,
    pub case_sensitive: bool,
    pub whole_word: bool,
    pub regex: bool,
    pub include_globs: String,
    pub exclude_globs: String,
}

pub struct HitView {
    pub line_no: u32,
    pub line: Seq<char>,
    pub start: usize,
    pub end: usize,
}

pub struct FileHitsView {
    pub path: Seq<char>,
    pub rel: Seq<char>,
    pub hits: Seq<HitView>,
}

pub struct OutcomeView {
    pub files: Seq<FileHitsView>,
    pub match_count: nat,
    pub truncated: bool,
    pub error: Option<Seq<char>>,
}

impl View for SearchHit {
    type V = HitView;

    open spec fn view(&self) -> HitView {
        HitView { line_no: self.line_no, line: self.line@, start: self.start, end: self.end }
    }
}

pub open spec fn hits_view(v: Seq<SearchHit>) -> Seq<HitView> {
    v.map_values(|h: SearchHit| h@)
}

impl View for SearchFileHits {
    type V = FileHitsView;

    open spec fn view(&self) -> FileHitsView {
        FileHitsView { path: self.path@, rel: self.rel@, hits: hits_view(self.hits@) }
    }
}

pub open spec fn files_view(v: Seq<SearchFileHits>) -> Seq<FileHitsView> {
    v.map_values(|f: SearchFileHits| f@)
}

impl View for SearchOutcome {
    type V = OutcomeView;

    open spec fn view(&self) -> OutcomeView {
        OutcomeView {
            files: files_view(self.files@),
            match_count: self.match_count as nat,
            truncated: self.truncated,
            error: match self.error {
                Some(e) => Some(e@),
                None => None,
            },
        }
    }
}

/// A failed search: nothing found, and the reason.
pub fn outcome_error(msg: String) -> (r: SearchOutcome)
    ensures
        r@.files.len() == 0,
        r@.match_count == 0,
        !r@.truncated,
        r@.error == Some(msg@),
{
    let r = SearchOutcome { files: Vec::new(), match_count: 0, truncated: false, error: Some(msg) };
    assert(r@.files =~= Seq::<FileHitsView>::empty());
    r
}

// ---------------------------------------------------------------------------
// Hits of one file
// ---------------------------------------------------------------------------

/// The hit shown for the byte span `start..end` of line `line_no`.
pub open spec fn hit_of(line: Seq<char>, line_no: u32, start: int, end: int) -> HitView {
    let t = hit_line(line, start, end);
    HitView { line_no, line: t.0, start: t.1 as usize, end: t.2 as usize }
}

/// The hits of one line.
pub open spec fn line_hits(line: Seq<char>, line_no: u32, q: Seq<char>, cs: bool, ww: bool) -> Seq<HitView> {
    byte_spans(line, literal_spans(line, q, cs, ww)).map_values(
        |p: (usize, usize)| hit_of(line, line_no, p.0 as int, p.1 as int),
    )
}

/// The hits of the lines `ls`, in order; a line's trailing `\r`s are
/// dropped and lines are numbered from 1.
pub open spec fn text_hits(ls: Seq<Seq<char>>, q: Seq<char>, cs: bool, ww: bool) -> Seq<HitView>
    decreases ls.len(),
{
    if ls.len() == 0 {
        Seq::empty()
    } else {
        text_hits(ls.drop_last(), q, cs, ww) + line_hits(
            strip_end_set(ls.last(), seq!['\r']),
            ls.len() as u32,
            q,
            cs,
            ww,
        )
    }
}

/// How many more matches may be collected once `count` were: at least one,
/// as a file is only searched while the limit is not reached.
pub open spec fn budget(count: nat) -> nat {
    if count < MAX_MATCHES {
        (MAX_MATCHES - count) as nat
    } else {
        1
    }
}

/// The hits collected from a file's text when `count` matches were found
/// before, the new count, and whether the limit was reached.
pub open spec fn file_hits(text: Seq<char>, q: Seq<char>, cs: bool, ww: bool, count: nat) -> (Seq<HitView>, nat, bool) {
    let all = text_hits(lines(text), q, cs, ww);
    if all.len() >= budget(count) {
        (all.take(budget(count) as int), count + budget(count), true)
    } else {
        (all, count + all.len(), false)
    }
}

/// `a` is a prefix of `b`.
pub open spec fn is_prefix(a: Seq<HitView>, b: Seq<HitView>) -> bool {
    a.len() <= b.len() && b.take(a.len() as int) == a
}

/// The hits of fewer lines come first among the hits of more.
proof fn lemma_text_hits_prefix(ls: Seq<Seq<char>>, q: Seq<char>, cs: bool, ww: bool, j: int, m: int)
    requires
        0 <= j <= m <= ls.len(),
    ensures
        is_prefix(text_hits(ls.take(j), q, cs, ww), text_hits(ls.take(m), q, cs, ww)),
    decreases m - j,
{
    if j < m {
        lemma_text_hits_prefix(ls, q, cs, ww, j, m - 1);
        assert(ls.take(m).drop_last() =~= ls.take(m - 1));
        let a = text_hits(ls.take(j), q, cs, ww);
        let b = text_hits(ls.take(m - 1), q, cs, ww);
        let c = text_hits(ls.take(m), q, cs, ww);
        assert(c.take(b.len() as int) =~= b);
        assert(c.take(a.len() as int) =~= b.take(a.len() as int));
    } else {
        let a = text_hits(ls.take(j), q, cs, ww);
        assert(a.take(a.len() as int) =~= a);
    }
}

/// A copy of a hit.
fn copy_hit(h: &SearchHit) -> (r: SearchHit)
    ensures
        r@ == h@,
{
    SearchHit { line_no: h.line_no, line: h.line.clone(), start: h.start, end: h.end }
}

/// The hits of one line, in order.
fn line_hits_exec(line: &str, line_no: u32, query: &str, case_sensitive: bool, whole_word: bool) -> (r: Vec<SearchHit>)
    ensures
        hits_view(r@) == line_hits(line@, line_no, query@, case_sensitive, whole_word),
{
    let spans = find_literal_spans(line, query, case_sensitive, whole_word);
    let ghost want = line_hits(line@, line_no, query@, case_sensitive, whole_word);
    let mut out: Vec<SearchHit> = Vec::new();
    let mut k: usize = 0;
    while k < spans.len()
        invariant
            k <= spans@.len(),
            spans@ == byte_spans(line@, literal_spans(line@, query@, case_sensitive, whole_word)),
            want == line_hits(line@, line_no, query@, case_sensitive, whole_word),
            hits_view(out@) == want.take(k as int),
        decreases spans.len() - k,
    {
        let (s, e) = spans[k];
        let (shown, hs, he) = truncate_hit_line(line, s, e);
        let hit = SearchHit { line_no, line: shown, start: hs, end: he };
        let ghost before = out@;
        out.push(hit);
        proof {
            assert(want[k as int] == hit_of(line@, line_no, s as int, e as int));
            assert(hits_view(out@) =~= hits_view(before).push(hit@));
            assert(want.take(k as int + 1) =~= want.take(k as int).push(want[k as int]));
        }
        k += 1;
    }
    assert(want.take(want.len() as int) =~= want);
    out
}

/// The hits of a file's text, given that `count` matches were found before:
/// at most as many as the limit leaves room for, the new count, and whether
/// the limit was reached.
#[verifier::spinoff_prover]
#[verifier::rlimit(30)]
pub fn search_text_hits(
    text: &str,
    query: &str,
    case_sensitive: bool,
    whole_word: bool,
    count: usize,
) -> (r: (Vec<SearchHit>, usize, bool))
    requires
        count <= MAX_MATCHES,
    ensures
        hits_view(r.0@) == file_hits(text@, query@, case_sensitive, whole_word, count as nat).0,
        r.1 == file_hits(text@, query@, case_sensitive, whole_word, count as nat).1,
        r.2 == file_hits(text@, query@, case_sensitive, whole_word, count as nat).2,
{
    let v = chars_of(text);
    let ls = crate::text::lines_exec(&v);
    let ghost lsv = lines(v@);
    let ghost all = text_hits(lsv, query@, case_sensitive, whole_word);
    let ghost b = budget(count as nat);
    let cap: usize = if count < MAX_MATCHES {
        MAX_MATCHES - count
    } else {
        1
    };
    let mut out: Vec<SearchHit> = Vec::new();
    let mut i: usize = 0;
    assert(lsv.take(0) =~= Seq::<Seq<char>>::empty());
    assert(hits_view(out@) =~= Seq::<HitView>::empty());
    let mut cr: Vec<char> = Vec::new();
    cr.push('\r');
    assert(cr@ =~= seq!['\r']);
    while i < ls.len()
        invariant
            i <= ls@.len(),
            ls@.len() == lsv.len(),
            forall|k: int| 0 <= k < ls@.len() ==> (#[trigger] ls@[k])@ == lsv[k],
            lsv == lines(v@),
            v@ == text@,
            cr@ == seq!['\r'],
            all == text_hits(lsv, query@, case_sensitive, whole_word),
            b == budget(count as nat),
            cap == b,
            1 <= cap <= MAX_MATCHES,
            count <= MAX_MATCHES,
            hits_view(out@) == text_hits(lsv.take(i as int), query@, case_sensitive, whole_word),
            out@.len() < cap,
        decreases ls.len() - i,
    {
        proof {
            assert(lsv.take(i as int + 1).drop_last() =~= lsv.take(i as int));
            lemma_text_hits_prefix(lsv, query@, case_sensitive, whole_word, i as int + 1, lsv.len() as int);
            assert(lsv.take(lsv.len() as int) =~= lsv);
        }
        let line_chars = crate::text::strip_end_set_exec(&ls[i], &cr);
        let line = crate::text::string_of(&line_chars);
        let hs = line_hits_exec(line.as_str(), (i + 1) as u32, query, case_sensitive, whole_word);
        let mut k: usize = 0;
        let ghost before = hits_view(out@);
        while k < hs.len()
            invariant
                k <= hs@.len(),
                hits_view(out@) == before + hits_view(hs@).take(k as int),
                before == text_hits(lsv.take(i as int), query@, case_sensitive, whole_word),
                hits_view(hs@) == line_hits(strip_end_set(lsv[i as int], seq!['\r']), (i + 1) as u32, query@, case_sensitive, whole_word),
                text_hits(lsv.take(i as int + 1), query@, case_sensitive, whole_word) == before + hits_view(hs@),
                is_prefix(text_hits(lsv.take(i as int + 1), query@, case_sensitive, whole_word), all),
                all == text_hits(lsv, query@, case_sensitive, whole_word),
                lsv == lines(text@),
                cap == budget(count as nat),
                out@.len() < cap,
                out@.len() == before.len() + k,
                before.len() < cap,
                1 <= cap <= MAX_MATCHES,
                count <= MAX_MATCHES,
                cap == budget(count as nat),
            decreases hs.len() - k,
        {
            let ghost pre = out@;
            out.push(copy_hit(&hs[k]));
            proof {
                assert(hits_view(out@) =~= hits_view(pre).push(hs@[k as int]@));
                assert(hits_view(hs@).take(k as int + 1) =~= hits_view(hs@).take(k as int).push(hs@[k as int]@));
            }
            k += 1;
            if out.len() >= cap {
                proof {
                    let full = text_hits(lsv.take(i as int + 1), query@, case_sensitive, whole_word);
                    assert(hits_view(out@) =~= full.take(cap as int));
                    assert(all.take(full.len() as int) == full);
                    assert(hits_view(out@) =~= all.take(cap as int));
                    assert(all.len() >= cap);
                    assert(all == text_hits(lines(text@), query@, case_sensitive, whole_word));
                }
                return (out, count + cap, true);
            }
        }
        i += 1;
    }
    assert(lsv.take(lsv.len() as int) =~= lsv);
    let n = out.len();
    (out, count + n, false)
}

// ---------------------------------------------------------------------------
// ripgrep matches
// ---------------------------------------------------------------------------

/// What one line of `rg --json` output says, as far as a search reads it.
#[derive(Clone, Debug)]
pub struct RgLine {
    /// The record's `type`.
    pub kind: Option<String>,
    /// Whether the record has `data`.
    pub has_data: bool,
    /// `data.path.text`.
    pub path: Option<String>,
    /// `data.line_number`.
    pub line_number: Option<u64>,
    /// `data.lines.text`.
    pub text: Option<String>,
    /// `start` and `end` of the first of `data.submatches`.
    pub submatch: Option<(Option<u64>, Option<u64>)>,
}

/// A match placed in its file.
#[derive(Clone, Debug)]
pub struct PlacedHit {
    pub path: String,
    pub rel: String,
    pub hit: SearchHit,
}

pub struct PlacedView {
    pub path: Seq<char>,
    pub rel: Seq<char>,
    pub hit: HitView,
}

impl View for PlacedHit {
    type V = PlacedView;

    open spec fn view(&self) -> PlacedView {
        PlacedView { path: self.path@, rel: self.rel@, hit: self.hit@ }
    }
}

pub open spec fn placed_view(o: Option<PlacedHit>) -> Option<PlacedView> {
    match o {
        Some(p) => Some(p@),
        None => None,
    }
}

pub open spec fn placed_views(v: Seq<Option<PlacedHit>>) -> Seq<Option<PlacedView>> {
    v.map_values(|o: Option<PlacedHit>| placed_view(o))
}

/// `s` with every `\` made a `/`.
pub open spec fn forward_slashes(s: Seq<char>) -> Seq<char> {
    s.map_values(|c: char| if c == '\\' {
        '/'
    } else {
        c
    })
}

/// `s` with every `\` made a `/`.
pub fn to_forward_slashes(s: &str) -> (r: String)
    ensures
        r@ == forward_slashes(s@),
{
    let v = chars_of(s);
    let mut out = String::new();
    let mut i: usize = 0;
    while i < v.len()
        invariant
            i <= v@.len(),
            out@ == forward_slashes(v@.take(i as int)),
        decreases v.len() - i,
    {
        let c = v[i];
        crate::text::push_char(&mut out, if c == '\\' {
            '/'
        } else {
            c
        });
        i += 1;
        assert(out@ =~= forward_slashes(v@.take(i as int)));
    }
    assert(v@.take(v@.len() as int) =~= v@);
    out
}

/// The path shown for a result: the part under the workspace root when
/// `stripped` has it, else the whole path, with forward slashes.
pub fn rel_from(path: &str, stripped: Option<String>) -> (r: String)
    ensures
        r@ == forward_slashes(match stripped {
            Some(q) => q@,
            None => path@,
        }),
{
    match stripped {
        Some(q) => to_forward_slashes(q.as_str()),
        None => to_forward_slashes(path),
    }
}

/// The workspace-relative path of `path`: for clean paths, the part under
/// `root` when it is there, else the whole path, with forward slashes.
pub fn rel_path(root: &str, path: &str) -> (r: String)
    ensures
        clean_path(root@) && clean_path(path@) ==> r@ == forward_slashes(
            match stripped_of(root@, path@) {
                Some(q) => q,
                None => path@,
            },
        ),
{
    let stripped = strip_root(root, path);
    rel_from(path, stripped)
}

/// Whether an `rg` record is a match with a path.
pub open spec fn rg_is_match(l: RgLine) -> bool {
    &&& l.kind matches Some(k) && k@ == "match"@
    &&& l.has_data
    &&& l.path matches Some(p) && p@.len() > 0
}

/// The line of a match as shown, before shortening: without trailing line
/// breaks.
pub open spec fn rg_line_text(l: RgLine) -> Seq<char> {
    strip_end_set(
        match l.text {
            Some(t) => t@,
            None => Seq::empty(),
        },
        seq!['\n', '\r'],
    )
}

/// The byte span of a match's first submatch (`0` where missing).
pub open spec fn rg_span(l: RgLine) -> (int, int) {
    match l.submatch {
        Some((s, e)) => (
            (match s {
                Some(x) => x,
                None => 0,
            }) as usize as int,
            (match e {
                Some(x) => x,
                None => 0,
            }) as usize as int,
        ),
        None => (0, 0),
    }
}

/// The hit an `rg` match record gives.
pub open spec fn rg_hit_view(l: RgLine) -> HitView {
    hit_of(
        rg_line_text(l),
        (match l.line_number {
            Some(n) => n,
            None => 0,
        }) as u32,
        rg_span(l).0,
        rg_span(l).1,
    )
}

/// Where a match record is filed, for a clean workspace root and a clean
/// relative path in the record: under the path joined onto the root, shown
/// as the record's path when the joined path is clean.
pub open spec fn placed_file(l: RgLine, root: Seq<char>, p: PlacedView) -> bool {
    (l.path matches Some(q) && clean_relative(q@) && clean_path(root)) ==> {
        &&& joined_onto(root, l.path->0@, p.path)
        &&& clean_path(p.path) ==> p.rel == l.path->0@
    }
}

/// What one match record gives: its hit, in its file.
pub open spec fn placed_from(l: RgLine, root: Seq<char>, p: PlacedView) -> bool {
    p.hit == rg_hit_view(l) && placed_file(l, root, p)
}

/// A clean relative path joined onto a clean root is, when clean, the path
/// under the root.
proof fn lemma_joined_rel(root: Seq<char>, q: Seq<char>, abs: Seq<char>)
    requires
        clean_path(root),
        clean_relative(q),
        joined_onto(root, q, abs),
        clean_path(abs),
    ensures
        stripped_of(root, abs) == Some(q),
        forward_slashes(q) == q,
{
    crate::paths::lemma_clean_relative_chars(q);
    crate::paths::lemma_clean_path_chars(root);
    crate::paths::lemma_clean_path_chars(abs);
    assert forall|i: int| 0 <= i < q.len() implies q[i] != '\\' by {
        if q[i] == '\\' {
            assert(q.contains('\\'));
        }
    }
    assert(forward_slashes(q) =~= q);
    if root == seq!['/'] {
        assert(abs =~= root + q);
        assert(abs.drop_first() =~= q);
    } else {
        let n = root.len() as int;
        if abs == root + seq!['\\'] + q {
            assert(abs[n] == '\\');
            assert(abs.contains('\\'));
        }
        assert(abs =~= root + seq!['/'] + q);
        assert(abs.take(n) =~= root);
        assert(abs.skip(n + 1) =~= q);
    }
}

/// The hit of one `rg` record, placed in its file; `None` for other records.
pub fn rg_hit(line: &RgLine, root: &str) -> (r: Option<PlacedHit>)
    ensures
        r is Some <==> rg_is_match(*line),
        r matches Some(p) ==> placed_from(*line, root@, p@),
{
    let is_match = match &line.kind {
        Some(k) => crate::text::str_eq(k.as_str(), "match"),
        None => false,
    };
    if !is_match || !line.has_data {
        return None;
    }
    let path = match &line.path {
        Some(p) => p,
        None => {
            return None;
        },
    };
    if path.as_str().is_empty() {
        return None;
    }
    proof {
        if clean_path(root@) {
            crate::paths::lemma_clean_is_plain_base(root@);
        }
    }
    let abs = join_path(root, path.as_str());
    let rel = rel_path(root, abs.as_str());
    proof {
        if clean_relative(path@) && clean_path(root@) && clean_path(abs@) {
            lemma_joined_rel(root@, path@, abs@);
        }
    }
    let line_no: u32 = match line.line_number {
        Some(n) => n as u32,
        None => 0,
    };
    let raw = match &line.text {
        Some(t) => chars_of(t.as_str()),
        None => Vec::new(),
    };
    let mut breaks: Vec<char> = Vec::new();
    breaks.push('\n');
    breaks.push('\r');
    assert(breaks@ =~= seq!['\n', '\r']);
    let trimmed = crate::text::string_of(&crate::text::strip_end_set_exec(&raw, &breaks));
    let (start, end): (usize, usize) = match line.submatch {
        Some((s, e)) => (
            match s {
                Some(x) => x as usize,
                None => 0,
            },
            match e {
                Some(x) => x as usize,
                None => 0,
            },
        ),
        None => (0, 0),
    };
    let (shown, hs, he) = truncate_hit_line(trimmed.as_str(), start, end);
    Some(PlacedHit { path: abs, rel, hit: SearchHit { line_no, line: shown, start: hs, end: he } })
}

/// The state of collecting matches.
pub struct Collected {
    pub files: Seq<FileHitsView>,
    pub count: nat,
    pub truncated: bool,
    pub stopped: bool,
}

/// Index of the file whose path is `path`, if any.
pub open spec fn file_index(files: Seq<FileHitsView>, path: Seq<char>) -> Option<int>
    decreases files.len(),
{
    if files.len() == 0 {
        None
    } else {
        match file_index(files.drop_last(), path) {
            Some(i) => Some(i),
            None => if files.last().path == path {
                Some(files.len() - 1)
            } else {
                None
            },
        }
    }
}

/// One record more: once the limits are reached collection stops; a match
/// joins its file, or opens a new one unless there are already
/// [`MAX_FILES`].
pub open spec fn collect_step(st: Collected, item: Option<PlacedView>) -> Collected {
    if st.stopped {
        st
    } else if st.count >= MAX_MATCHES || st.files.len() > MAX_FILES {
        Collected { truncated: true, stopped: true, ..st }
    } else {
        match item {
            None => st,
            Some(p) => match file_index(st.files, p.path) {
                Some(i) => Collected {
                    files: st.files.update(
                        i,
                        FileHitsView { hits: st.files[i].hits.push(p.hit), ..st.files[i] },
                    ),
                    count: st.count + 1,
                    ..st
                },
                None => if st.files.len() >= MAX_FILES {
                    Collected { truncated: true, stopped: true, ..st }
                } else {
                    Collected {
                        files: st.files.push(FileHitsView { path: p.path, rel: p.rel, hits: seq![p.hit] }),
                        count: st.count + 1,
                        ..st
                    }
                },
            },
        }
    }
}

/// The state after all of `items`.
pub open spec fn collect_all(items: Seq<Option<PlacedView>>) -> Collected
    decreases items.len(),
{
    if items.len() == 0 {
        Collected { files: Seq::empty(), count: 0, truncated: false, stopped: false }
    } else {
        collect_step(collect_all(items.drop_last()), items.last())
    }
}

/// Index of the file whose path is `path`.
fn file_index_exec(files: &Vec<SearchFileHits>, path: &str) -> (r: Option<usize>)
    ensures
        r matches Some(i) ==> file_index(files_view(files@), path@) == Some(i as int),
        r is None ==> file_index(files_view(files@), path@) is None,
{
    let ghost fv = files_view(files@);
    let mut i: usize = 0;
    while i < files.len()
        invariant
            i <= files@.len(),
            fv == files_view(files@),
            file_index(fv.take(i as int), path@) is None,
        decreases files.len() - i,
    {
        proof {
            assert(fv.take(i as int + 1).drop_last() =~= fv.take(i as int));
        }
        if crate::text::str_eq(files[i].path.as_str(), path) {
            proof {
                lemma_file_index_prefix(fv, path@, i as int + 1);
            }
            return Some(i);
        }
        i += 1;
    }
    assert(fv.take(fv.len() as int) =~= fv);
    None
}

/// A found file is at a valid index and has the path.
proof fn lemma_file_index_found(fv: Seq<FileHitsView>, path: Seq<char>)
    ensures
        file_index(fv, path) matches Some(i) ==> 0 <= i < fv.len() && fv[i].path == path,
    decreases fv.len(),
{
    if fv.len() > 0 {
        lemma_file_index_found(fv.drop_last(), path);
    }
}

/// A file found among the first `j` is found at the same place among all.
proof fn lemma_file_index_prefix(fv: Seq<FileHitsView>, path: Seq<char>, j: int)
    requires
        0 <= j <= fv.len(),
        file_index(fv.take(j), path) is Some,
    ensures
        file_index(fv, path) == file_index(fv.take(j), path),
    decreases fv.len() - j,
{
    if j < fv.len() {
        assert(fv.take(j + 1).drop_last() =~= fv.take(j));
        lemma_file_index_prefix(fv, path, j + 1);
    } else {
        assert(fv.take(j) =~= fv);
    }
}

/// Groups placed matches by file, in the order their files first appear,
/// stopping at [`MAX_MATCHES`] matches or [`MAX_FILES`] files.
pub fn collect_hits(items: Vec<Option<PlacedHit>>) -> (r: SearchOutcome)
    ensures
        r@.files == collect_all(placed_views(items@)).files,
        r@.match_count == collect_all(placed_views(items@)).count,
        r@.truncated == collect_all(placed_views(items@)).truncated,
        r@.error is None,
{
    let ghost iv = placed_views(items@);
    let ghost orig = items@;
    let mut items = items;
    let mut files: Vec<SearchFileHits> = Vec::new();
    let mut count: usize = 0;
    let mut truncated = false;
    let mut stopped = false;
    let n = items.len();
    let mut k: usize = 0;
    assert(iv.take(0) =~= Seq::<Option<PlacedView>>::empty());
    assert(files_view(files@) =~= Seq::<FileHitsView>::empty());
    while k < n
        invariant
            k <= n == items@.len(),
            iv == placed_views(orig),
            orig.len() == n,
            forall|q: int| k <= q < n ==> items@[q] == orig[q],
            files_view(files@) == collect_all(iv.take(k as int)).files,
            count == collect_all(iv.take(k as int)).count,
            truncated == collect_all(iv.take(k as int)).truncated,
            stopped == collect_all(iv.take(k as int)).stopped,
            count <= MAX_MATCHES,
            files@.len() <= MAX_FILES,
        decreases n - k,
    {
        proof {
            assert(iv.take(k as int + 1).drop_last() =~= iv.take(k as int));
            assert(iv[k as int] == placed_view(orig[k as int]));
        }
        if stopped {
            k += 1;
            continue;
        }
        if count >= MAX_MATCHES || files.len() > MAX_FILES {
            truncated = true;
            stopped = true;
            k += 1;
            continue;
        }
        let item = items.remove(k);
        items.insert(k, None);
        proof {
            assert(iv[k as int] == placed_view(item));
        }
        match item {
            None => {},
            Some(p) => {
                let found = file_index_exec(&files, p.path.as_str());
                proof {
                    lemma_file_index_found(files_view(files@), p.path@);
                }
                match found {
                    Some(i) => {
                        let ghost before = files_view(files@);
                        let mut f = files.remove(i);
                        let ghost fb = f@;
                        f.hits.push(p.hit);
                        files.insert(i, f);
                        proof {
                            assert(hits_view(f.hits@) =~= fb.hits.push(p.hit@));
                            assert(files_view(files@) =~= before.update(
                                i as int,
                                FileHitsView { hits: before[i as int].hits.push(p.hit@), ..before[i as int] },
                            ));
                        }
                        count += 1;
                    },
                    None => {
                        if files.len() >= MAX_FILES {
                            truncated = true;
                            stopped = true;
                        } else {
                            let ghost before = files_view(files@);
                            let mut hits: Vec<SearchHit> = Vec::new();
                            hits.push(p.hit);
                            let f = SearchFileHits { path: p.path, rel: p.rel, hits };
                            files.push(f);
                            proof {
                                assert(hits_view(hits@) =~= seq![hits@[0]@]);
                                assert(files_view(files@) =~= before.push(f@));
                            }
                            count += 1;
                        }
                    },
                }
            },
        }
        k += 1;
    }
    assert(iv.take(n as int) =~= iv);
    SearchOutcome { files, match_count: count, truncated, error: None }
}

/// The outcome of `rg --json` output, line by line (`None` for a line that
/// is not JSON): the matches grouped by file, within the limits; each match
/// is filed as [`rg_hit`] places it (for a clean root and record path: under
/// the record's path joined onto the root).
pub fn parse_rg_json(lines: &Vec<Option<RgLine>>, root: &str) -> (r: SearchOutcome)
    ensures
        exists|placed: Seq<Option<PlacedView>>| {
            &&& placed.len() == lines@.len()
            &&& forall|k: int| 0 <= k < lines@.len() ==> (#[trigger] placed[k] is Some <==> (
                lines@[k] matches Some(l) && rg_is_match(l)))
            &&& forall|k: int| 0 <= k < lines@.len() ==> (#[trigger] placed[k] matches Some(p) ==> (
                lines@[k] matches Some(l) && placed_from(l, root@, p)))
            &&& r@.files == collect_all(placed).files
            &&& r@.match_count == collect_all(placed).count
            &&& r@.truncated == collect_all(placed).truncated
        },
        r@.error is None,
{
    let mut items: Vec<Option<PlacedHit>> = Vec::new();
    let mut k: usize = 0;
    while k < lines.len()
        invariant
            k <= lines@.len(),
            items@.len() == k,
            forall|q: int| 0 <= q < k ==> (#[trigger] placed_views(items@)[q] is Some <==> (
                lines@[q] matches Some(l) && rg_is_match(l))),
            forall|q: int| 0 <= q < k ==> (#[trigger] placed_views(items@)[q] matches Some(p) ==> (
                lines@[q] matches Some(l) && placed_from(l, root@, p))),
        decreases lines.len() - k,
    {
        let item = match &lines[k] {
            Some(l) => rg_hit(l, root),
            None => None,
        };
        let ghost before = items@;
        let ghost iv_item = placed_view(item);
        proof {
            assert(iv_item is Some <==> (lines@[k as int] matches Some(l) && rg_is_match(l)));
            assert(iv_item matches Some(p) ==> (lines@[k as int] matches Some(l) && placed_from(
                l,
                root@,
                p,
            )));
        }
        items.push(item);
        proof {
            assert(placed_views(items@) =~= placed_views(before).push(iv_item));
        }
        k += 1;
    }
    let ghost pv = placed_views(items@);
    let r = collect_hits(items);
    assert(pv.len() == lines@.len());
    r
}

// ---------------------------------------------------------------------------
// Running a search
// ---------------------------------------------------------------------------

/// The directories a search never enters (compared ignoring ASCII case).
pub open spec fn skipped_dir(name: Seq<char>) -> bool {
    ||| eq_ignore_ascii_case(name, ".git"@)
    ||| eq_ignore_ascii_case(name, "node_modules"@)
    ||| eq_ignore_ascii_case(name, "target"@)
}

/// Whether a search skips the directory `name`.
pub fn is_skipped_dir_name(name: &str) -> (r: bool)
    ensures
        r == skipped_dir(name@),
{
    let v = chars_of(name);
    eq_ignore_ascii_case_exec(&v, &chars_of(".git")) || eq_ignore_ascii_case_exec(
        &v,
        &chars_of("node_modules"),
    ) || eq_ignore_ascii_case_exec(&v, &chars_of("target"))
}

/// The request a search input starts, or `None` when the query is blank
/// (the results are then cleared); the query is sent trimmed.
pub fn search_request(
    root: &str,
    query: &str,
    case_sensitive: bool,
    whole_word: bool,
    regex: bool,
    include_globs: &str,
    exclude_globs: &str,
) -> (r: Option<SearchRequest>)
    ensures
        trim(query@).len() == 0 <==> r is None,
        r matches Some(q) ==> q.root@ == root@ && q.query@ == trim(query@) && q.case_sensitive
            == case_sensitive && q.whole_word == whole_word && q.regex == regex
            && q.include_globs@ == include_globs@ && q.exclude_globs@ == exclude_globs@,
{
    let t = trim_str(query);
    if t.as_str().is_empty() {
        return None;
    }
    Some(
        SearchRequest {
            root: root.to_string(),
            query: t,
            case_sensitive,
            whole_word,
            regex,
            include_globs: include_globs.to_string(),
            exclude_globs: exclude_globs.to_string(),
        },
    )
}

/// `--glob` followed by each glob (with `!` before it for `negate`).
pub open spec fn glob_args(globs: Seq<Seq<char>>, negate: bool) -> Seq<Seq<char>>
    decreases globs.len(),
{
    if globs.len() == 0 {
        Seq::empty()
    } else {
        glob_args(globs.drop_last(), negate) + seq![
            "--glob"@,
            if negate {
                "!"@ + globs.last()
            } else {
                globs.last()
            },
        ]
    }
}

/// The fixed start of every `rg` call: JSON output, size and column limits,
/// and the directories never searched.
pub open spec fn rg_base_args() -> Seq<Seq<char>> {
    seq![
        "--json"@,
        "--max-filesize"@,
        "2M"@,
        "--max-columns"@,
        "400"@,
        "--max-columns-preview"@,
        "--glob"@,
        "!**/.git/**"@,
        "--glob"@,
        "!**/node_modules/**"@,
        "--glob"@,
        "!**/target/**"@,
    ]
}

/// The arguments of the `rg` call for a request (`incl` and `excl` are the
/// raw filter fields).
pub open spec fn rg_arg_list(
    query: Seq<char>,
    cs: bool,
    ww: bool,
    regex: bool,
    incl: Seq<char>,
    excl: Seq<char>,
) -> Seq<Seq<char>> {
    rg_base_args() + glob_args(globs_of(incl), false) + glob_args(globs_of(excl), true) + (if !cs {
        seq!["-i"@]
    } else {
        Seq::empty()
    }) + (if ww {
        seq!["-w"@]
    } else {
        Seq::empty()
    }) + (if !regex {
        seq!["-F"@]
    } else {
        Seq::empty()
    }) + seq!["--"@, query, "."@]
}

/// Appends `--glob` and each glob (with `!` before it for `negate`).
fn push_glob_args(args: &mut Vec<String>, raw: &str, negate: bool)
    ensures
        texts(final(args)@) == texts(old(args)@) + glob_args(globs_of(raw@), negate),
{
    let globs = split_globs(raw);
    let ghost gs = globs_of(raw@);
    let ghost start = texts(args@);
    let mut i: usize = 0;
    while i < globs.len()
        invariant
            i <= globs@.len(),
            globs@.map_values(|s: String| s@) == gs,
            texts(args@) == start + glob_args(gs.take(i as int), negate),
        decreases globs.len() - i,
    {
        proof {
            assert(gs.take(i as int + 1).drop_last() =~= gs.take(i as int));
            assert(gs[i as int] == globs@[i as int]@);
        }
        let ghost before = args@;
        args.push("--glob".to_string());
        if negate {
            args.push(crate::text::concat("!", globs[i].as_str()));
        } else {
            args.push(globs[i].clone());
        }
        proof {
            assert(texts(args@) =~= texts(before) + seq!["--glob"@, if negate {
                "!"@ + gs[i as int]
            } else {
                gs[i as int]
            }]);
        }
        i += 1;
    }
    assert(gs.take(gs.len() as int) =~= gs);
}

/// The arguments of the `rg` call that serves `req` (run in the workspace
/// root).
pub fn rg_args(req: &SearchRequest) -> (r: Vec<String>)
    ensures
        texts(r@) == rg_arg_list(
            req.query@,
            req.case_sensitive,
            req.whole_word,
            req.regex,
            req.include_globs@,
            req.exclude_globs@,
        ),
{
    let mut args: Vec<String> = Vec::new();
    args.push("--json".to_string());
    args.push("--max-filesize".to_string());
    args.push("2M".to_string());
    args.push("--max-columns".to_string());
    args.push("400".to_string());
    args.push("--max-columns-preview".to_string());
    args.push("--glob".to_string());
    args.push("!**/.git/**".to_string());
    args.push("--glob".to_string());
    args.push("!**/node_modules/**".to_string());
    args.push("--glob".to_string());
    args.push("!**/target/**".to_string());
    assert(texts(args@) =~= rg_base_args());
    push_glob_args(&mut args, req.include_globs.as_str(), false);
    push_glob_args(&mut args, req.exclude_globs.as_str(), true);
    let ghost mid = texts(args@);
    if !req.case_sensitive {
        args.push("-i".to_string());
    }
    if req.whole_word {
        args.push("-w".to_string());
    }
    if !req.regex {
        args.push("-F".to_string());
    }
    args.push("--".to_string());
    args.push(req.query.clone());
    args.push(".".to_string());
    assert(texts(args@) =~= mid + (if !req.case_sensitive {
        seq!["-i"@]
    } else {
        Seq::empty()
    }) + (if req.whole_word {
        seq!["-w"@]
    } else {
        Seq::empty()
    }) + (if !req.regex {
        seq!["-F"@]
    } else {
        Seq::empty()
    }) + seq!["--"@, req.query@, "."@]);
    args
}

/// The reason given when `rg` failed: its trimmed error output, or a
/// generic sentence when there is none.
pub open spec fn rg_failure_text(stderr: Seq<char>) -> Seq<char> {
    if trim(stderr).len() == 0 {
        "ripgrep 搜索失败。"@
    } else {
        trim(stderr)
    }
}

/// What an `rg` run gives: its matches when it ended well (found something
/// or nothing), else the reason it failed.
pub fn rg_result(status_ok: bool, stderr: &str, lines: &Vec<Option<RgLine>>, root: &str) -> (r: Result<SearchOutcome, String>)
    ensures
        !status_ok ==> (r matches Err(e) && e@ == rg_failure_text(stderr@)),
        status_ok ==> (r matches Ok(o) && o@.error is None),
{
    if !status_ok {
        let t = trim_str(stderr);
        if t.as_str().is_empty() {
            return Err("ripgrep 搜索失败。".to_string());
        }
        return Err(t);
    }
    Ok(parse_rg_json(lines, root))
}

/// The outcome when no workspace is open, if none is.
pub fn workspace_missing(root: &str) -> (r: Option<SearchOutcome>)
    ensures
        trim(root@).len() == 0 <==> r is Some,
        r matches Some(o) ==> o@.files.len() == 0 && o@.match_count == 0 && !o@.truncated
            && o@.error == Some("未打开工作区。"@),
{
    if crate::text::is_blank(root) {
        Some(outcome_error("未打开工作区。".to_string()))
    } else {
        None
    }
}

/// What a search returns after trying `rg` (`Ok(None)`: `rg` is not
/// installed): its outcome, or its failure as the outcome's error; without
/// `rg` a regex search fails, and a literal search (`None`) walks the files
/// instead.
pub fn search_after_rg(regex: bool, attempt: Result<Option<SearchOutcome>, String>) -> (r: Option<SearchOutcome>)
    ensures
        match attempt {
            Ok(Some(o)) => r matches Some(x) && x@ == o@,
            Ok(None) => if regex {
                r matches Some(x) && x@.files.len() == 0 && x@.match_count == 0 && !x@.truncated
                    && x@.error == Some("正则搜索需要系统已安装 ripgrep（rg）。"@)
            } else {
                r is None
            },
            Err(e) => r matches Some(x) && x@.files.len() == 0 && x@.match_count == 0
                && !x@.truncated && x@.error == Some(e@),
        },
{
    match attempt {
        Ok(Some(o)) => Some(o),
        Ok(None) => if regex {
            Some(outcome_error("正则搜索需要系统已安装 ripgrep（rg）。".to_string()))
        } else {
            None
        },
        Err(e) => Some(outcome_error(e)),
    }
}

/// The summary line of the search panel.
pub open spec fn summary_text(
    loading: bool,
    error: Option<Seq<char>>,
    has_query: bool,
    match_count: nat,
    file_count: nat,
    truncated: bool,
) -> Seq<char> {
    if loading {
        "正在搜索…"@
    } else if error is Some {
        error->0
    } else if !has_query {
        "输入关键词后按 Enter 搜索文件内容"@
    } else if match_count == 0 {
        "未找到结果"@
    } else {
        "已找到 "@ + decimal(match_count) + " 个结果 · "@ + decimal(file_count) + (if truncated {
            " 个文件（已截断）"@
        } else {
            " 个文件"@
        })
    }
}

/// The summary line of the search panel.
pub fn search_summary(
    loading: bool,
    error: &Option<String>,
    has_query: bool,
    match_count: usize,
    file_count: usize,
    truncated: bool,
) -> (r: String)
    ensures
        r@ == summary_text(
            loading,
            match error {
                Some(e) => Some(e@),
                None => None,
            },
            has_query,
            match_count as nat,
            file_count as nat,
            truncated,
        ),
{
    if loading {
        return "正在搜索…".to_string();
    }
    match error {
        Some(e) => {
            return e.clone();
        },
        None => {},
    }
    if !has_query {
        return "输入关键词后按 Enter 搜索文件内容".to_string();
    }
    if match_count == 0 {
        return "未找到结果".to_string();
    }
    let mut out = "已找到 ".to_string();
    push_decimal(&mut out, match_count as u64);
    out.append(" 个结果 · ");
    push_decimal(&mut out, file_count as u64);
    if truncated {
        out.append(" 个文件（已截断）");
    } else {
        out.append(" 个文件");
    }
    out
}

/// What happens to a file after its text was replaced.
#[derive(Clone, Copy, Debug, PartialEq, Eq, Structural)]
pub enum ReplaceStep {
    /// Nothing changed: the file is left alone.
    Unchanged,
    /// The replacement would empty a non-empty file: refused.
    RefuseEmpty,
    /// The new text is written.
    Write,
}

/// What to do with a file whose text `old` became `new` after `n`
/// replacements.
pub fn replace_step(old: &str, new: &str, n: usize) -> (r: ReplaceStep)
    ensures
        (n == 0 || new@ == old@) ==> r == ReplaceStep::Unchanged,
        !(n == 0 || new@ == old@) && new@.len() == 0 && old@.len() > 0 ==> r
            == ReplaceStep::RefuseEmpty,
        !(n == 0 || new@ == old@) && !(new@.len() == 0 && old@.len() > 0) ==> r
            == ReplaceStep::Write,
{
    if n == 0 || crate::text::str_eq(new, old) {
        return ReplaceStep::Unchanged;
    }
    if new.is_empty() && !old.is_empty() {
        return ReplaceStep::RefuseEmpty;
    }
    ReplaceStep::Write
}

/// The message after replacing in all files, and whether it is a warning
/// (some file failed).
pub open spec fn replace_all_text(replaced: nat, written: nat, skipped: nat, failed: nat) -> Seq<char> {
    "已替换 "@ + decimal(replaced) + " 处，写入 "@ + decimal(written) + " 个文件"@ + (if skipped
        > 0 {
        "，跳过 "@ + decimal(skipped) + " 个未保存文件"@
    } else {
        Seq::empty()
    }) + (if failed > 0 {
        "，"@ + decimal(failed) + " 个失败"@
    } else {
        Seq::empty()
    })
}

/// The message after replacing in all files, and whether it is a warning.
pub fn replace_all_message(replaced: usize, written: usize, skipped: usize, failed: usize) -> (r: (String, bool))
    ensures
        r.0@ == replace_all_text(replaced as nat, written as nat, skipped as nat, failed as nat),
        r.1 == (failed > 0),
{
    let mut msg = "已替换 ".to_string();
    push_decimal(&mut msg, replaced as u64);
    msg.append(" 处，写入 ");
    push_decimal(&mut msg, written as u64);
    msg.append(" 个文件");
    let ghost base = msg@;
    if skipped > 0 {
        msg.append("，跳过 ");
        push_decimal(&mut msg, skipped as u64);
        msg.append(" 个未保存文件");
    }
    let ghost mid = msg@;
    if failed > 0 {
        msg.append("，");
        push_decimal(&mut msg, failed as u64);
        msg.append(" 个失败");
    }
    proof {
        assert(mid =~= base + (if skipped > 0 {
            "，跳过 "@ + decimal(skipped as nat) + " 个未保存文件"@
        } else {
            Seq::empty()
        }));
        assert(msg@ =~= mid + (if failed > 0 {
            "，"@ + decimal(failed as nat) + " 个失败"@
        } else {
            Seq::empty()
        }));
    }
    (msg, failed > 0)
}

/// The files that replacing may write: those without unsaved edits, in
/// order, and how many were left out.
pub fn writable_paths(paths: &Vec<String>, dirty: &Vec<String>) -> (r: (Vec<String>, usize))
    ensures
        texts(r.0@) == texts(paths@).filter(|p: Seq<char>| !texts(dirty@).contains(p)),
        r.1 + r.0@.len() == paths@.len(),
{
    let ghost pred = |p: Seq<char>| !texts(dirty@).contains(p);
    let mut out: Vec<String> = Vec::new();
    let mut skipped: usize = 0;
    let mut i: usize = 0;
    while i < paths.len()
        invariant
            i <= paths@.len(),
            pred == (|p: Seq<char>| !texts(dirty@).contains(p)),
            texts(out@) == texts(paths@).take(i as int).filter(pred),
            skipped + out@.len() == i,
        decreases paths.len() - i,
    {
        proof {
            assert(texts(paths@).take(i as int + 1) =~= texts(paths@).take(i as int).push(paths@[i as int]@));
            texts(paths@).take(i as int).lemma_filter_push(paths@[i as int]@, pred);
        }
        if crate::llm_enabled::contains_id(dirty, paths[i].as_str()) {
            proof {
                assert(crate::llm_enabled::ids(dirty@) =~= texts(dirty@));
            }
            skipped += 1;
        } else {
            proof {
                assert(crate::llm_enabled::ids(dirty@) =~= texts(dirty@));
            }
            let ghost before = out@;
            out.push(paths[i].clone());
            assert(texts(out@) =~= texts(before).push(paths@[i as int]@));
        }
        i += 1;
    }
    assert(texts(paths@).take(paths@.len() as int) =~= texts(paths@));
    (out, skipped)
}

/// The text before, inside and after the byte span `start..end` of `line`,
/// when both ends are character boundaries in order.
pub open spec fn highlight_split(line: Seq<char>, start: int, end: int) -> Option<(Seq<char>, Seq<char>, Seq<char>)> {
    if exists|i: int, j: int|
        0 <= i <= j <= line.len() && byte_offset(line, i) == start && byte_offset(line, j) == end {
        let (i, j) = choose|i: int, j: int|
            0 <= i <= j <= line.len() && byte_offset(line, i) == start && byte_offset(line, j) == end;
        Some((line.take(i), line.subrange(i, j), line.skip(j)))
    } else {
        None
    }
}

/// The parts of a result line to show with the match marked; `None` when
/// the span does not fit the line (it is then shown plain).
pub fn highlight_parts(line: &str, start: usize, end: usize) -> (r: Option<(String, String, String)>)
    ensures
        match r {
            Some((a, b, c)) => highlight_split(line@, start as int, end as int) == Some((a@, b@, c@)),
            None => highlight_split(line@, start as int, end as int) is None,
        },
{
    let v = chars_of(line);
    let total = byte_len(line);
    let offs = byte_offsets(&v, total);
    let oi = index_at_byte(&offs, &v, start);
    let oj = index_at_byte(&offs, &v, end);
    match (oi, oj) {
        (Some(i), Some(j)) => {
            if i > j {
                proof {
                    assert forall|a: int, b: int|
                        0 <= a <= b <= v@.len() && byte_offset(v@, a) == start implies byte_offset(
                            v@,
                            b,
                        ) != end by {
                        if a != i as int {
                            if a < i {
                                lemma_byte_offset_strict(v@, a, i as int);
                            } else {
                                lemma_byte_offset_strict(v@, i as int, a);
                            }
                        }
                        if b != j as int {
                            if b < j {
                                lemma_byte_offset_strict(v@, b, j as int);
                            } else {
                                lemma_byte_offset_strict(v@, j as int, b);
                            }
                        }
                    }
                }
                return None;
            }
            proof {
                let (a, b) = choose|a: int, b: int|
                    0 <= a <= b <= v@.len() && byte_offset(v@, a) == start && byte_offset(v@, b)
                        == end;
                if a != i as int {
                    if a < i {
                        lemma_byte_offset_strict(v@, a, i as int);
                    } else {
                        lemma_byte_offset_strict(v@, i as int, a);
                    }
                }
                if b != j as int {
                    if b < j {
                        lemma_byte_offset_strict(v@, b, j as int);
                    } else {
                        lemma_byte_offset_strict(v@, j as int, b);
                    }
                }
            }
            let n = v.len();
            let before = crate::text::string_of_range(&v, 0, i);
            let mid = crate::text::string_of_range(&v, i, j);
            let after = crate::text::string_of_range(&v, j, n);
            assert(before@ =~= v@.take(i as int));
            assert(after@ =~= v@.skip(j as int));
            Some((before, mid, after))
        },
        _ => None,
    }
}

// ---------------------------------------------------------------------------
// Laws
// ---------------------------------------------------------------------------

/// A path is searched when any glob of the includes (at any position)
/// selects it and no glob of the excludes does; when includes are given but
/// none selects it, or some exclude selects it, it is left out.
pub proof fn law_filters_any_include(
    rel: Seq<char>,
    includes: Seq<Seq<char>>,
    excludes: Seq<Seq<char>>,
    k: int,
)
    ensures
        (0 <= k < includes.len() && glob_selects(encode_utf8(includes[k]), encode_utf8(rel))
            && forall|j: int| 0 <= j < excludes.len() ==> !glob_selects(encode_utf8(excludes[j]), encode_utf8(rel)))
            ==> path_selected(rel, includes, excludes),
        (0 <= k < excludes.len() && glob_selects(encode_utf8(excludes[k]), encode_utf8(rel))) ==> !path_selected(
            rel,
            includes,
            excludes,
        ),
        (includes.len() > 0 && forall|j: int| 0 <= j < includes.len() ==> !glob_selects(encode_utf8(includes[j]), encode_utf8(rel)))
            ==> !path_selected(rel, includes, excludes),
        (includes.len() == 0 && forall|j: int| 0 <= j < excludes.len() ==> !glob_selects(encode_utf8(excludes[j]), encode_utf8(rel)))
            ==> path_selected(rel, includes, excludes),
{
}

/// The walk never enters a `.git`, `node_modules` or `target` folder, in any
/// ASCII case, and enters every other folder.
pub proof fn law_skipped_folders(name: Seq<char>)
    ensures
        eq_ignore_ascii_case(name, ".git"@) ==> skipped_dir(name),
        eq_ignore_ascii_case(name, "node_modules"@) ==> skipped_dir(name),
        eq_ignore_ascii_case(name, "target"@) ==> skipped_dir(name),
        skipped_dir(name) ==> eq_ignore_ascii_case(name, ".git"@) || eq_ignore_ascii_case(name, "node_modules"@)
            || eq_ignore_ascii_case(name, "target"@),
{
}

/// Every span of an exact search from `i` is an occurrence of the needle
/// (standing as a whole word when asked), and the spans come in order
/// without overlapping, all at or after `i`.
pub proof fn law_exact_spans_are_matches(h: Seq<char>, n: Seq<char>, ww: bool, i: int)
    requires
        0 <= i,
    ensures
        forall|k: int|
            0 <= k < exact_spans(h, n, ww, i).len() ==> {
                let sp = #[trigger] exact_spans(h, n, ww, i)[k];
                &&& i <= sp.0
                &&& occurs_at(h, n, sp.0)
                &&& sp.1 == sp.0 + n.len()
                &&& ww ==> whole_at(h, sp.0, sp.1)
            },
        forall|k: int|
            0 <= k < exact_spans(h, n, ww, i).len() - 1 ==> (#[trigger] exact_spans(h, n, ww, i)[k]).1
                <= exact_spans(h, n, ww, i)[k + 1].0,
    decreases h.len() + 1 - i,
{
    if n.len() > 0 {
        lemma_find_from(h, n, i);
        match find_from(h, n, i) {
            Some(k) => {
                let e = k + n.len();
                law_exact_spans_are_matches(h, n, ww, e);
                let rest = exact_spans(h, n, ww, e);
                let all = exact_spans(h, n, ww, i);
                if !ww || whole_at(h, k, e) {
                    assert(all == seq![(k, e)] + rest);
                    assert forall|q: int| 0 <= q < all.len() implies ({
                        let sp = #[trigger] all[q];
                        &&& i <= sp.0
                        &&& occurs_at(h, n, sp.0)
                        &&& sp.1 == sp.0 + n.len()
                        &&& ww ==> whole_at(h, sp.0, sp.1)
                    }) by {
                        if q > 0 {
                            assert(all[q] == rest[q - 1]);
                        }
                    }
                    assert forall|q: int| 0 <= q < all.len() - 1 implies (#[trigger] all[q]).1
                        <= all[q + 1].0 by {
                        if q > 0 {
                            assert(all[q] == rest[q - 1]);
                            assert(all[q + 1] == rest[q]);
                        } else {
                            assert(all[1] == rest[0]);
                        }
                    }
                }
            },
            None => {},
        }
    }
}

/// The match span of a shown result line lies within the shown text.
pub proof fn law_hit_span_inside(h: Seq<char>, start: int, end: int)
    requires
        0 <= start,
        0 <= end,
    ensures
        0 <= hit_line(h, start, end).1 <= hit_line(h, start, end).2 <= utf8_len(
            hit_line(h, start, end).0,
        ),
{
}

/// A file not found holds no such path.
proof fn lemma_file_index_none(fv: Seq<FileHitsView>, path: Seq<char>)
    ensures
        file_index(fv, path) is None ==> forall|i: int| 0 <= i < fv.len() ==> (#[trigger] fv[i]).path != path,
    decreases fv.len(),
{
    if fv.len() > 0 {
        lemma_file_index_none(fv.drop_last(), path);
        assert forall|i: int| 0 <= i < fv.len() - 1 implies fv[i] == fv.drop_last()[i] by {}
    }
}

/// Collected matches stay within the limits, and each file appears once.
pub proof fn law_collect_within_limits(items: Seq<Option<PlacedView>>)
    ensures
        collect_all(items).files.len() <= MAX_FILES,
        collect_all(items).count <= MAX_MATCHES,
        forall|a: int, b: int|
            0 <= a < b < collect_all(items).files.len() ==> (#[trigger] collect_all(items).files[a]).path
                != (#[trigger] collect_all(items).files[b]).path,
    decreases items.len(),
{
    if items.len() > 0 {
        let init = items.drop_last();
        law_collect_within_limits(init);
        let st = collect_all(init);
        lemma_file_index_found(st.files, items.last()->0.path);
        lemma_file_index_none(st.files, items.last()->0.path);
        let next = collect_all(items);
        if !st.stopped && !(st.count >= MAX_MATCHES || st.files.len() > MAX_FILES) && items.last() is Some {
            let p = items.last()->0;
            match file_index(st.files, p.path) {
                Some(i) => {
                    assert forall|a: int, b: int| 0 <= a < b < next.files.len() implies (
                        #[trigger] next.files[a]).path != (#[trigger] next.files[b]).path by {
                        assert(next.files[a].path == st.files[a].path);
                        assert(next.files[b].path == st.files[b].path);
                    }
                },
                None => {
                    if st.files.len() < MAX_FILES {
                        assert forall|a: int, b: int| 0 <= a < b < next.files.len() implies (
                            #[trigger] next.files[a]).path != (#[trigger] next.files[b]).path by {
                            if b == st.files.len() {
                                assert(next.files[b].path == p.path);
                                assert(next.files[a] == st.files[a]);
                            } else {
                                assert(next.files[a] == st.files[a]);
                                assert(next.files[b] == st.files[b]);
                            }
                        }
                    }
                },
            }
        }
    }
}

// ---------------------------------------------------------------------------
// Counting matches with `rg --count-matches`
// ---------------------------------------------------------------------------

/// The text after the last `:` of `s` (all of it when there is none).
pub open spec fn after_last_colon(s: Seq<char>) -> Seq<char> {
    match crate::text::last_index_of(s, ':') {
        Some(k) => s.skip(k + 1),
        None => s,
    }
}

/// The number of matches `rg --count-matches` printed for one file: the
/// number after the last `:`, or `0` when there is none.
pub open spec fn rg_count_of(out: Seq<char>) -> nat {
    match crate::text::parse_unsigned(trim(after_last_colon(out)), usize::MAX as nat) {
        Some(n) => n,
        None => 0,
    }
}

/// Reads the number of matches from what `rg --count-matches` printed for one
/// file; `0` when it printed no number.
pub fn rg_count_matches(stdout: &str) -> (r: usize)
    ensures
        r == rg_count_of(stdout@),
{
    let v = chars_of(stdout);
    proof {
        crate::text::lemma_last_index_of(v@, ':');
    }
    let tail = match crate::text::last_index_of_exec(&v, ':') {
        Some(k) => {
            assert(crate::text::last_index_of(v@, ':') == Some(k as int));
            assert(k < v.len());
            crate::text::string_of_range(&v, k + 1, v.len())
        },
        None => crate::text::string_of(&v),
    };
    assert(tail@ =~= after_last_colon(stdout@));
    let t = trim_str(tail.as_str());
    let tv = chars_of(t.as_str());
    match crate::text::parse_unsigned_exec(&tv, usize::MAX as u64) {
        Some(n) => n as usize,
        None => 0,
    }
}

// ---------------------------------------------------------------------------
// Walking the workspace without `rg`
// ---------------------------------------------------------------------------

/// The outcome after one more walked file: `hits` are its hits, `count` and
/// `limit_hit` what [`search_text_hits`] returned for it.  A file with hits
/// is listed while fewer than [`MAX_FILES`] are; past that the outcome is
/// marked shortened instead.  The match count is taken as given.
pub open spec fn walked(
    o: OutcomeView,
    f: FileHitsView,
    count: nat,
    limit_hit: bool,
) -> OutcomeView {
    let full = f.hits.len() > 0 && o.files.len() >= MAX_FILES;
    OutcomeView {
        files: if f.hits.len() > 0 && !full {
            o.files.push(f)
        } else {
            o.files
        },
        match_count: count,
        truncated: o.truncated || limit_hit || full,
        error: o.error,
    }
}

/// Adds one walked file to the outcome; returns whether the walk stops (the
/// outcome is shortened).
pub fn add_walked_file(
    outcome: &mut SearchOutcome,
    path: String,
    rel: String,
    hits: Vec<SearchHit>,
    count: usize,
    limit_hit: bool,
) -> (stop: bool)
    ensures
        final(outcome)@ == walked(
            old(outcome)@,
            FileHitsView { path: path@, rel: rel@, hits: hits_view(hits@) },
            count as nat,
            limit_hit,
        ),
        stop == final(outcome).truncated,
{
    let ghost before = outcome@;
    let ghost fv = FileHitsView { path: path@, rel: rel@, hits: hits_view(hits@) };
    outcome.match_count = count;
    if limit_hit {
        outcome.truncated = true;
    }
    if hits.len() > 0 {
        if outcome.files.len() >= MAX_FILES {
            outcome.truncated = true;
        } else {
            let f = SearchFileHits { path, rel, hits };
            assert(f@ == fv);
            let ghost prev = outcome.files@;
            outcome.files.push(f);
            assert(files_view(outcome.files@) =~= files_view(prev).push(fv));
        }
    }
    outcome.truncated
}

/// A walk never lists more than [`MAX_FILES`] files.
pub proof fn law_walk_keeps_file_limit(o: OutcomeView, f: FileHitsView, count: nat, limit_hit: bool)
    requires
        o.files.len() <= MAX_FILES,
    ensures
        walked(o, f, count, limit_hit).files.len() <= MAX_FILES,
        o.truncated ==> walked(o, f, count, limit_hit).truncated,
{
}

// ---------------------------------------------------------------------------
// Runs of the search panel
// ---------------------------------------------------------------------------

/// The search panel's bookkeeping of its runs: the number of the latest
/// search started, and whether its results are awaited. Each keystroke
/// starts a new search; only the latest one may show its results.
pub struct SearchRuns {
    pub epoch: u64,
    pub loading: bool,
    /// The results shown.
    pub outcome: SearchOutcome,
    /// The result files shown open.
    pub expanded: Vec<String>,
}

/// No results.
pub open spec fn no_outcome() -> OutcomeView {
    OutcomeView { files: Seq::empty(), match_count: 0, truncated: false, error: None }
}

/// An outcome with no results.
pub fn empty_outcome() -> (r: SearchOutcome)
    ensures
        r@ == no_outcome(),
{
    let r = SearchOutcome { files: Vec::new(), match_count: 0, truncated: false, error: None };
    assert(r@.files =~= Seq::empty());
    r
}

/// What the panel does after a search was started.
pub enum SearchKick {
    /// The query is blank: the results and the open files are cleared.
    Clear,
    /// Run `request` (after the typing delay) as search number `epoch`.
    Run { epoch: u64, request: SearchRequest },
}

/// The number of the search started after search number `epoch`.
pub open spec fn kicked(epoch: u64) -> int {
    epoch + 1
}

/// Starts a search for `request` (`None` for a blank query, as
/// [`search_request`] gives it). The epoch counter must not be at its largest
/// value.
pub fn kick_search(runs: &mut SearchRuns, request: Option<SearchRequest>) -> (r: SearchKick)
    requires
        old(runs).epoch < u64::MAX,
    ensures
        final(runs).epoch == kicked(old(runs).epoch),
        final(runs).loading == request is Some,
        request is None ==> final(runs).outcome@ == no_outcome() && final(runs).expanded@.len() == 0,
        request is Some ==> final(runs).outcome@ == old(runs).outcome@ && texts(final(runs).expanded@)
            == texts(old(runs).expanded@),
        match request {
            None => r is Clear,
            Some(q) => (r matches SearchKick::Run { epoch, request: q2 } && epoch == kicked(
                old(runs).epoch,
            ) && q2 == q),
        },
{
    runs.epoch = runs.epoch + 1;
    match request {
        None => {
            runs.loading = false;
            runs.outcome = empty_outcome();
            runs.expanded = Vec::new();
            SearchKick::Clear
        },
        Some(q) => {
            runs.loading = true;
            SearchKick::Run { epoch: runs.epoch, request: q }
        },
    }
}

/// Search number `run_epoch` is the latest one while the counter is at it.
pub open spec fn is_current(epoch: u64, run_epoch: u64) -> bool {
    run_epoch == epoch
}

/// Whether search number `run_epoch` is still the latest one, so that it is
/// worth running or showing.
pub fn search_is_current(runs: &SearchRuns, run_epoch: u64) -> (r: bool)
    ensures
        r == is_current(runs.epoch, run_epoch),
{
    run_epoch == runs.epoch
}

/// The paths of the files that a search found.
pub open spec fn found_paths(o: OutcomeView) -> Seq<Seq<char>> {
    o.files.map_values(|f: FileHitsView| f.path)
}

/// Search number `run_epoch` has finished with `outcome`. When it is still
/// the latest, loading ends, its results are shown and every file found is
/// open, in order; the result is `true`. A superseded search changes
/// nothing and gives `false`.
pub fn search_finished(runs: &mut SearchRuns, run_epoch: u64, outcome: SearchOutcome) -> (shown: bool)
    ensures
        final(runs).epoch == old(runs).epoch,
        shown == is_current(old(runs).epoch, run_epoch),
        !shown ==> final(runs).loading == old(runs).loading && final(runs).outcome@ == old(
            runs,
        ).outcome@ && texts(final(runs).expanded@) == texts(old(runs).expanded@),
        shown ==> !final(runs).loading && final(runs).outcome@ == outcome@ && texts(
            final(runs).expanded@,
        ) == found_paths(outcome@),
{
    if run_epoch != runs.epoch {
        return false;
    }
    runs.loading = false;
    runs.expanded = found_file_paths(&outcome);
    runs.outcome = outcome;
    true
}

/// Only the latest search shows its results: once another search has been
/// started after search number `run`, `run` is no longer current and its
/// results are dropped, while the newer one is current.
pub proof fn law_superseded_search_is_dropped(run: u64, next: u64)
    requires
        next == kicked(run),
    ensures
        !is_current(next, run),
        is_current(next, next),
{
}

// ---------------------------------------------------------------------------
// Walking the workspace
// ---------------------------------------------------------------------------

/// What a directory entry met by the walk is, as the file system reports it
/// (without following links).
#[derive(Clone, Copy, Debug, PartialEq, Eq, Structural)]
pub enum WalkEntryKind {
    Symlink,
    Dir,
    File,
    Other,
}

/// What the walk does with an entry.
#[derive(Clone, Copy, Debug, PartialEq, Eq, Structural)]
pub enum WalkAction {
    /// Leave it.
    Skip,
    /// Walk into the directory later.
    Descend,
    /// Read the file and search it.
    Search,
}

/// The walk's step for an entry named `name` at workspace-relative path
/// `rel`: links are never followed; directories are entered unless they are
/// skipped by name; files are searched when they pass the filters; anything
/// else is left.
pub open spec fn walk_action_of(
    kind: WalkEntryKind,
    name: Seq<char>,
    rel: Seq<char>,
    includes: Seq<Seq<char>>,
    excludes: Seq<Seq<char>>,
) -> WalkAction {
    match kind {
        WalkEntryKind::Symlink => WalkAction::Skip,
        WalkEntryKind::Dir => if skipped_dir(name) {
            WalkAction::Skip
        } else {
            WalkAction::Descend
        },
        WalkEntryKind::File => if path_selected(rel, includes, excludes) {
            WalkAction::Search
        } else {
            WalkAction::Skip
        },
        WalkEntryKind::Other => WalkAction::Skip,
    }
}

/// The walk's step for one directory entry.
pub fn walk_entry_action(
    kind: WalkEntryKind,
    name: &str,
    rel: &str,
    includes: &Vec<String>,
    excludes: &Vec<String>,
) -> (r: WalkAction)
    ensures
        r == walk_action_of(kind, name@, rel@, texts(includes@), texts(excludes@)),
{
    match kind {
        WalkEntryKind::Symlink => WalkAction::Skip,
        WalkEntryKind::Dir => if is_skipped_dir_name(name) {
            WalkAction::Skip
        } else {
            WalkAction::Descend
        },
        WalkEntryKind::File => if path_passes_filters(rel, includes, excludes) {
            WalkAction::Search
        } else {
            WalkAction::Skip
        },
        WalkEntryKind::Other => WalkAction::Skip,
    }
}

// ---------------------------------------------------------------------------
// Tally of a replacement in several files
// ---------------------------------------------------------------------------

/// The result of replacing in several files: matches replaced, the files
/// written with their new text, and one message per failed file.
pub struct ReplaceDone {
    pub replaced: usize,
    pub written: Vec<(String, String)>,
    pub errors: Vec<String>,
}

/// The files written, as paths and texts.
pub open spec fn written_view(v: Seq<(String, String)>) -> Seq<(Seq<char>, Seq<char>)> {
    v.map_values(|w: (String, String)| (w.0@, w.1@))
}

/// The message for a file that failed: its path, a full-width colon, the
/// reason.
pub open spec fn file_error_text(path: Seq<char>, reason: Seq<char>) -> Seq<char> {
    path + "："@ + reason
}

/// The reason given for a file whose replacement would empty it.
pub open spec fn refused_empty_text() -> Seq<char> {
    "替换结果为空，已跳过。"@
}

impl ReplaceDone {
    /// Nothing replaced yet.
    pub fn new() -> (r: ReplaceDone)
        ensures
            r.replaced == 0,
            r.written@.len() == 0,
            r.errors@.len() == 0,
    {
        ReplaceDone { replaced: 0, written: Vec::new(), errors: Vec::new() }
    }
}

/// Notes that the file `path` failed for `reason` (it could not be read,
/// replaced or written).
pub fn note_replace_failed(done: &mut ReplaceDone, path: &str, reason: &str)
    ensures
        final(done).replaced == old(done).replaced,
        written_view(final(done).written@) == written_view(old(done).written@),
        texts(final(done).errors@) == texts(old(done).errors@).push(file_error_text(path@, reason@)),
{
    let mut m = crate::text::concat(path, "：");
    m.append(reason);
    let ghost before = done.errors@;
    done.errors.push(m);
    assert(texts(done.errors@) =~= texts(before).push(file_error_text(path@, reason@)));
}

/// Notes what [`replace_step`] decided for the file `path` whose text became
/// `new` after `n` replacements; for [`ReplaceStep::Write`], `written` is the
/// outcome of writing it. A refused file counts as failed; a written one adds
/// its replacements and its new text; an unchanged one adds nothing.
pub fn note_replace_step(
    done: &mut ReplaceDone,
    path: &str,
    new: String,
    n: usize,
    step: ReplaceStep,
    written: Result<(), String>,
)
    requires
        step == ReplaceStep::Write && written is Ok ==> old(done).replaced + n <= usize::MAX,
    ensures
        step == ReplaceStep::Unchanged ==> *final(done) == *old(done),
        step == ReplaceStep::RefuseEmpty ==> final(done).replaced == old(done).replaced && written_view(
            final(done).written@,
        ) == written_view(old(done).written@) && texts(final(done).errors@) == texts(
            old(done).errors@,
        ).push(file_error_text(path@, refused_empty_text())),
        step == ReplaceStep::Write ==> match written {
            Ok(_) => final(done).replaced == old(done).replaced + n && written_view(final(done).written@)
                == written_view(old(done).written@).push((path@, new@)) && texts(final(done).errors@)
                == texts(old(done).errors@),
            Err(e) => final(done).replaced == old(done).replaced && written_view(final(done).written@)
                == written_view(old(done).written@) && texts(final(done).errors@) == texts(
                old(done).errors@,
            ).push(file_error_text(path@, e@)),
        },
{
    match step {
        ReplaceStep::Unchanged => {},
        ReplaceStep::RefuseEmpty => {
            note_replace_failed(done, path, "替换结果为空，已跳过。");
        },
        ReplaceStep::Write => match written {
            Ok(()) => {
                done.replaced = done.replaced + n;
                let ghost before = done.written@;
                done.written.push((path.to_string(), new));
                assert(written_view(done.written@) =~= written_view(before).push((path@, new@)));
            },
            Err(e) => {
                note_replace_failed(done, path, e.as_str());
            },
        },
    }
}

/// The notice after a replacement in several files (`skipped` files had
/// unsaved edits), and whether it reports failures.
pub fn replace_notice(done: &ReplaceDone, skipped: usize) -> (r: (String, bool))
    ensures
        r.0@ == replace_all_text(
            done.replaced as nat,
            done.written@.len(),
            skipped as nat,
            done.errors@.len(),
        ),
        r.1 == (done.errors@.len() > 0),
{
    replace_all_message(done.replaced, done.written.len(), skipped, done.errors.len())
}

// ---------------------------------------------------------------------------
// Starting a replacement in all files
// ---------------------------------------------------------------------------

/// What clicking "replace all" leads to.
pub enum ReplaceAllStart {
    /// The search found nothing: a warning, nothing written.
    NoResults,
    /// Every file found has unsaved edits: a warning, nothing written.
    AllDirty,
    /// Ask for confirmation to write `writable` (the files without unsaved
    /// edits), replacing `matches` matches, with `skipped` files left out.
    Confirm { writable: Vec<String>, matches: usize, skipped: usize },
}

/// The paths of the files a search found.
fn found_file_paths(outcome: &SearchOutcome) -> (r: Vec<String>)
    ensures
        texts(r@) == found_paths(outcome@),
{
    let mut out: Vec<String> = Vec::new();
    let mut i: usize = 0;
    while i < outcome.files.len()
        invariant
            0 <= i <= outcome.files.len(),
            texts(out@) =~= found_paths(outcome@).take(i as int),
        decreases outcome.files.len() - i,
    {
        let p = outcome.files[i].path.clone();
        let ghost before = out@;
        out.push(p);
        proof {
            assert(texts(out@) =~= texts(before).push(outcome.files@[i as int]@.path));
            assert(found_paths(outcome@).take(i as int + 1) =~= found_paths(outcome@).take(i as int).push(
                outcome.files@[i as int]@.path,
            ));
        }
        i = i + 1;
    }
    assert(found_paths(outcome@).take(outcome.files.len() as int) =~= found_paths(outcome@));
    out
}

/// The files of a search without unsaved edits.
pub open spec fn clean_found(o: OutcomeView, dirty: Seq<Seq<char>>) -> Seq<Seq<char>> {
    found_paths(o).filter(|p: Seq<char>| !dirty.contains(p))
}

/// What clicking "replace all" does with the search's `outcome`, given the
/// files with unsaved edits: a warning when nothing was found or every file
/// found is unsaved, else a confirmation for the others.
pub fn replace_all_start(outcome: &SearchOutcome, dirty: &Vec<String>) -> (r: ReplaceAllStart)
    ensures
        outcome.files@.len() == 0 ==> r is NoResults,
        outcome.files@.len() > 0 && clean_found(outcome@, texts(dirty@)).len() == 0 ==> r is AllDirty,
        outcome.files@.len() > 0 && clean_found(outcome@, texts(dirty@)).len() > 0 ==> (
        r matches ReplaceAllStart::Confirm { writable, matches, skipped } && texts(writable@)
            == clean_found(outcome@, texts(dirty@)) && matches == outcome.match_count && skipped
            + writable@.len() == outcome.files@.len()),
{
    if outcome.files.len() == 0 {
        return ReplaceAllStart::NoResults;
    }
    let paths = found_file_paths(outcome);
    let (writable, skipped) = writable_paths(&paths, dirty);
    assert(texts(paths@).len() == paths@.len());
    if writable.len() == 0 {
        assert(texts(writable@).len() == 0);
        return ReplaceAllStart::AllDirty;
    }
    assert(texts(writable@).len() == writable@.len());
    ReplaceAllStart::Confirm { writable, matches: outcome.match_count, skipped }
}

/// The warning "replace all" shows instead of asking, if any.
pub fn replace_all_warning(start: &ReplaceAllStart) -> (r: Option<String>)
    ensures
        start is NoResults ==> (r matches Some(m) && m@ == "没有可替换的结果。"@),
        start is AllDirty ==> (r matches Some(m) && m@ == "当前匹配的文件都有未保存修改，请先保存或撤销后再替换。"@),
        start is Confirm ==> r is None,
{
    match start {
        ReplaceAllStart::NoResults => Some("没有可替换的结果。".to_string()),
        ReplaceAllStart::AllDirty => Some("当前匹配的文件都有未保存修改，请先保存或撤销后再替换。".to_string()),
        ReplaceAllStart::Confirm { .. } => None,
    }
}

} // verus!
