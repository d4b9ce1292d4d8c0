//! Character-level text helpers shared by the rest of the library.
//!
//! Strings are modelled by their view, a `Seq<char>`. Byte offsets, where the
//! interface speaks of them, are UTF-8 offsets computed by [`utf8_len`].
use vstd::prelude::*;
use vstd::utf8::*;

verus! {

// ---------------------------------------------------------------------------
// Conversions between `&str`, `Vec<char>` and `String`
// ---------------------------------------------------------------------------

/// The characters of `s`, in order.
pub fn chars_of(s: &str) -> (v: Vec<char>)
    ensures
        v@ == s@,
{
    let mut v: Vec<char> = Vec::new();
    for c in it: s.chars()
        invariant
            v@ == it.seq().take(it.index() as int),
            it.seq() == s@,
    {
        v.push(c);
    }
    v
}

/// `String::push`: appends one character.
#[verifier::external_body]
pub(crate) fn push_char(s: &mut String, c: char)
    ensures
        final(s)@ == old(s)@.push(c),
{
    s.push(c);
}

/// Appends `v[from..to]` to `out`.
pub fn push_chars(out: &mut String, v: &Vec<char>, from: usize, to: usize)
    requires
        from <= to <= v@.len(),
    ensures
        final(out)@ == old(out)@ + v@.subrange(from as int, to as int),
{
    let mut i = from;
    while i < to
        invariant
            from <= i <= to <= v@.len(),
            out@ == old(out)@ + v@.subrange(from as int, i as int),
        decreases to - i,
    {
        push_char(out, v[i]);
        i += 1;
        assert(v@.subrange(from as int, i as int) =~= v@.subrange(from as int, i - 1).push(
            v@[i - 1],
        ));
    }
}

/// The string made of `v[from..to]`.
pub fn string_of_range(v: &Vec<char>, from: usize, to: usize) -> (s: String)
    requires
        from <= to <= v@.len(),
    ensures
        s@ == v@.subrange(from as int, to as int),
{
    let mut s = String::new();
    push_chars(&mut s, v, from, to);
    assert(s@ =~= v@.subrange(from as int, to as int));
    s
}

/// The string made of all of `v`.
pub fn string_of(v: &Vec<char>) -> (s: String)
    ensures
        s@ == v@,
{
    let s = string_of_range(v, 0, v.len());
    assert(v@.subrange(0, v@.len() as int) =~= v@);
    s
}

/// A copy of `s`.
pub fn copy_str(s: &str) -> (r: String)
    ensures
        r@ == s@,
{
    s.to_owned()
}

/// `a` followed by `b`.
pub fn concat(a: &str, b: &str) -> (r: String)
    ensures
        r@ == a@ + b@,
{
    let mut r = a.to_owned();
    r.append(b);
    r
}

/// Character equality of two strings.
pub fn str_eq(a: &str, b: &str) -> (r: bool)
    ensures
        r == (a@ == b@),
{
    let va = chars_of(a);
    let vb = chars_of(b);
    seq_eq(&va, &vb)
}

/// Element-wise equality of two character vectors.
pub fn seq_eq(a: &Vec<char>, b: &Vec<char>) -> (r: bool)
    ensures
        r == (a@ == b@),
{
    if a.len() != b.len() {
        return false;
    }
    let mut i: usize = 0;
    while i < a.len()
        invariant
            a@.len() == b@.len(),
            i <= a@.len(),
            forall|k: int| 0 <= k < i ==> a@[k] == b@[k],
        decreases a.len() - i,
    {
        if a[i] != b[i] {
            return false;
        }
        i += 1;
    }
    assert(a@ =~= b@);
    true
}

// ---------------------------------------------------------------------------
// Whitespace and trimming
// ---------------------------------------------------------------------------

/// Unicode `White_Space`, the property that `char::is_whitespace` tests.
pub open spec fn is_ws(c: char) -> bool {
    let u = c as u32;
    ||| 0x09 <= u <= 0x0d
    ||| u == 0x20
    ||| u == 0x85
    ||| u == 0xa0
    ||| u == 0x1680
    ||| 0x2000 <= u <= 0x200a
    ||| u == 0x2028
    ||| u == 0x2029
    ||| u == 0x202f
    ||| u == 0x205f
    ||| u == 0x3000
}

/// Whether `c` is white space.
pub fn is_whitespace(c: char) -> (r: bool)
    ensures
        r == is_ws(c),
{
    let u = c as u32;
    (0x09 <= u && u <= 0x0d) || u == 0x20 || u == 0x85 || u == 0xa0 || u == 0x1680 || (0x2000
        <= u && u <= 0x200a) || u == 0x2028 || u == 0x2029 || u == 0x202f || u == 0x205f || u
        == 0x3000
}

/// `s` without leading white space.
pub open spec fn trim_start(s: Seq<char>) -> Seq<char>
    decreases s.len(),
{
    if s.len() > 0 && is_ws(s[0]) {
        trim_start(s.drop_first())
    } else {
        s
    }
}

/// `s` without trailing white space.
pub open spec fn trim_end(s: Seq<char>) -> Seq<char>
    decreases s.len(),
{
    if s.len() > 0 && is_ws(s.last()) {
        trim_end(s.drop_last())
    } else {
        s
    }
}

/// `s` without leading and trailing white space (`str::trim`).
pub open spec fn trim(s: Seq<char>) -> Seq<char> {
    trim_end(trim_start(s))
}

/// Index of the first character of `s` at or after `i` that is not white space.
pub open spec fn first_non_ws_from(s: Seq<char>, i: int) -> int
    decreases s.len() - i,
{
    if i < s.len() && is_ws(s[i]) {
        first_non_ws_from(s, i + 1)
    } else {
        i
    }
}

proof fn lemma_trim_start_from(s: Seq<char>, i: int)
    requires
        0 <= i <= s.len(),
    ensures
        trim_start(s.skip(i)) == s.skip(first_non_ws_from(s, i)),
        i <= first_non_ws_from(s, i) <= s.len(),
    decreases s.len() - i,
{
    if i < s.len() && is_ws(s[i]) {
        assert(s.skip(i).drop_first() =~= s.skip(i + 1));
        lemma_trim_start_from(s, i + 1);
    }
}

/// Index one past the last character of `s` before `j` that is not white space.
pub open spec fn last_non_ws_before(s: Seq<char>, j: int) -> int
    decreases j,
{
    if j > 0 && is_ws(s[j - 1]) {
        last_non_ws_before(s, j - 1)
    } else {
        j
    }
}

proof fn lemma_trim_end_before(s: Seq<char>, j: int)
    requires
        0 <= j <= s.len(),
    ensures
        trim_end(s.take(j)) == s.take(last_non_ws_before(s, j)),
        0 <= last_non_ws_before(s, j) <= j,
    decreases j,
{
    if j > 0 && is_ws(s[j - 1]) {
        assert(s.take(j).drop_last() =~= s.take(j - 1));
        lemma_trim_end_before(s, j - 1);
    }
}

/// `trim_start` leaves nothing or a non-blank first character.
pub proof fn lemma_trim_start_shape(s: Seq<char>)
    ensures
        trim_start(s).len() == 0 || !is_ws(trim_start(s)[0]),
        trim_start(s).len() <= s.len(),
    decreases s.len(),
{
    if s.len() > 0 && is_ws(s[0]) {
        lemma_trim_start_shape(s.drop_first());
    }
}

/// `trim_end` keeps a prefix that is empty or ends in a non-blank character.
pub proof fn lemma_trim_end_shape(s: Seq<char>)
    ensures
        trim_end(s).len() <= s.len(),
        trim_end(s) == s.take(trim_end(s).len() as int),
        trim_end(s).len() == 0 || !is_ws(trim_end(s).last()),
    decreases s.len(),
{
    if s.len() > 0 && is_ws(s.last()) {
        lemma_trim_end_shape(s.drop_last());
        let t = trim_end(s.drop_last());
        assert(s.drop_last().take(t.len() as int) =~= s.take(t.len() as int));
    } else {
        assert(s.take(s.len() as int) =~= s);
    }
}

/// Trimming twice is trimming once.
pub proof fn lemma_trim_idempotent(s: Seq<char>)
    ensures
        trim(trim(s)) == trim(s),
{
    let u = trim_start(s);
    lemma_trim_start_shape(s);
    lemma_trim_end_shape(u);
    let t = trim_end(u);
    if t.len() > 0 {
        assert(t[0] == u[0]);
        assert(trim_start(t) == t);
        assert(trim_end(t) == t);
    } else {
        assert(trim_start(t) == t);
        assert(trim_end(t) == t);
    }
}

/// The bounds `(a, b)` with `trim(v) == v[a..b]`.
pub fn trim_bounds(v: &Vec<char>) -> (r: (usize, usize))
    ensures
        r.0 <= r.1 <= v@.len(),
        trim(v@) == v@.subrange(r.0 as int, r.1 as int),
        trim_start(v@) == v@.skip(r.0 as int),
{
    let mut a: usize = 0;
    while a < v.len() && is_whitespace(v[a])
        invariant
            a <= v@.len(),
            first_non_ws_from(v@, 0) == first_non_ws_from(v@, a as int),
        decreases v.len() - a,
    {
        a += 1;
    }
    proof {
        lemma_trim_start_from(v@, 0);
        assert(v@.skip(0) =~= v@);
    }
    let ghost ts = v@.skip(a as int);
    let mut b: usize = v.len();
    while b > a && is_whitespace(v[b - 1])
        invariant
            a <= b <= v@.len(),
            last_non_ws_before(ts, b - a) == last_non_ws_before(ts, ts.len() as int),
            ts == v@.skip(a as int),
        decreases b,
    {
        b -= 1;
    }
    proof {
        lemma_trim_end_before(ts, ts.len() as int);
        assert(ts.take(ts.len() as int) =~= ts);
        assert(ts.take((b - a) as int) =~= v@.subrange(a as int, b as int));
    }
    (a, b)
}

/// `str::trim`.
pub fn trim_str(s: &str) -> (r: String)
    ensures
        r@ == trim(s@),
{
    let v = chars_of(s);
    let (a, b) = trim_bounds(&v);
    string_of_range(&v, a, b)
}

/// `str::trim_start`.
pub fn trim_start_str(s: &str) -> (r: String)
    ensures
        r@ == trim_start(s@),
{
    let v = chars_of(s);
    let (a, _b) = trim_bounds(&v);
    let r = string_of_range(&v, a, v.len());
    assert(v@.subrange(a as int, v@.len() as int) =~= v@.skip(a as int));
    r
}

/// Whether `trim(s)` is empty, i.e. `s` is made of white space only.
pub fn is_blank(s: &str) -> (r: bool)
    ensures
        r == (trim(s@).len() == 0),
{
    let v = chars_of(s);
    let (a, b) = trim_bounds(&v);
    a == b
}

// ---------------------------------------------------------------------------
// Prefixes, suffixes and occurrences
// ---------------------------------------------------------------------------

/// `p` occurs in `s` at index `i`.
pub open spec fn occurs_at(s: Seq<char>, p: Seq<char>, i: int) -> bool {
    0 <= i && i + p.len() <= s.len() && s.subrange(i, i + p.len()) == p
}

/// `p` occurs somewhere in `s` (`str::contains`).
pub open spec fn contains_seq(s: Seq<char>, p: Seq<char>) -> bool {
    exists|i: int| occurs_at(s, p, i)
}

/// `s` starts with `p`.
pub open spec fn starts_with(s: Seq<char>, p: Seq<char>) -> bool {
    occurs_at(s, p, 0)
}

/// First index at or after `i` where `p` occurs in `s`.
pub open spec fn find_from(s: Seq<char>, p: Seq<char>, i: int) -> Option<int>
    decreases s.len() + 1 - i,
{
    if i < 0 || i + p.len() > s.len() {
        None
    } else if occurs_at(s, p, i) {
        Some(i)
    } else {
        find_from(s, p, i + 1)
    }
}

/// First index where `p` occurs in `s` (`str::find`).
pub open spec fn find(s: Seq<char>, p: Seq<char>) -> Option<int> {
    find_from(s, p, 0)
}

pub proof fn lemma_find_from(s: Seq<char>, p: Seq<char>, i: int)
    requires
        0 <= i,
    ensures
        find_from(s, p, i) matches Some(k) ==> i <= k && occurs_at(s, p, k) && forall|j: int|
            i <= j < k ==> !occurs_at(s, p, j),
        find_from(s, p, i) is None ==> forall|j: int| i <= j ==> !occurs_at(s, p, j),
    decreases s.len() + 1 - i,
{
    if i + p.len() > s.len() {
    } else if occurs_at(s, p, i) {
    } else {
        lemma_find_from(s, p, i + 1);
    }
}

pub proof fn lemma_find(s: Seq<char>, p: Seq<char>)
    ensures
        find(s, p) matches Some(k) ==> occurs_at(s, p, k) && forall|j: int|
            0 <= j < k ==> !occurs_at(s, p, j),
        find(s, p) is None <==> !contains_seq(s, p),
{
    lemma_find_from(s, p, 0);
}

/// Whether `p` occurs in `s` at `i`.
pub fn occurs_at_exec(s: &Vec<char>, p: &Vec<char>, i: usize) -> (r: bool)
    ensures
        r == occurs_at(s@, p@, i as int),
{
    if i > s.len() || p.len() > s.len() - i {
        return false;
    }
    let mut k: usize = 0;
    while k < p.len()
        invariant
            i + p@.len() <= s@.len(),
            s@.len() == s.len(),
            k <= p@.len(),
            forall|t: int| 0 <= t < k ==> s@[i + t] == p@[t],
        decreases p.len() - k,
    {
        if s[i + k] != p[k] {
            assert(s@.subrange(i as int, i + p@.len())[k as int] != p@[k as int]);
            return false;
        }
        k += 1;
    }
    assert(s@.subrange(i as int, i + p@.len()) =~= p@);
    true
}

/// First index at or after `from` where `p` occurs in `s`.
pub fn find_from_exec(s: &Vec<char>, p: &Vec<char>, from: usize) -> (r: Option<usize>)
    ensures
        r matches Some(k) ==> find_from(s@, p@, from as int) == Some(k as int),
        r is None ==> find_from(s@, p@, from as int) is None,
{
    let mut i = from;
    while i <= s.len() && p.len() <= s.len() - i
        invariant
            from <= i,
            find_from(s@, p@, from as int) == find_from(s@, p@, i as int),
        decreases s.len() + 1 - i,
    {
        if occurs_at_exec(s, p, i) {
            return Some(i);
        }
        assert(p@.len() == 0 ==> s@.subrange(i as int, i as int) =~= p@);
        i += 1;
    }
    None
}

/// `str::find` on character vectors.
pub fn find_exec(s: &Vec<char>, p: &Vec<char>) -> (r: Option<usize>)
    ensures
        r matches Some(k) ==> find(s@, p@) == Some(k as int),
        r is None ==> find(s@, p@) is None,
{
    find_from_exec(s, p, 0)
}

/// `str::contains` on character vectors.
pub fn contains_exec(s: &Vec<char>, p: &Vec<char>) -> (r: bool)
    ensures
        r == contains_seq(s@, p@),
{
    proof {
        lemma_find(s@, p@);
    }
    find_exec(s, p).is_some()
}

/// `str::contains`.
pub fn str_contains(s: &str, p: &str) -> (r: bool)
    ensures
        r == contains_seq(s@, p@),
{
    let vs = chars_of(s);
    let vp = chars_of(p);
    contains_exec(&vs, &vp)
}

/// `str::starts_with`.
pub fn str_starts_with(s: &str, p: &str) -> (r: bool)
    ensures
        r == starts_with(s@, p@),
{
    let vs = chars_of(s);
    let vp = chars_of(p);
    occurs_at_exec(&vs, &vp, 0)
}

/// Whether `c` occurs in `v`.
pub fn has_char(v: &Vec<char>, c: char) -> (r: bool)
    ensures
        r == v@.contains(c),
{
    let mut i: usize = 0;
    while i < v.len()
        invariant
            i <= v@.len(),
            forall|k: int| 0 <= k < i ==> v@[k] != c,
        decreases v.len() - i,
    {
        if v[i] == c {
            return true;
        }
        i += 1;
    }
    false
}

/// Index of the first character of `s` at or after `i` that is one of `stops`,
/// or `s.len()` when there is none.
pub open spec fn index_of_any_from(s: Seq<char>, stops: Seq<char>, i: int) -> int
    decreases s.len() - i,
{
    if i >= s.len() {
        s.len() as int
    } else if stops.contains(s[i]) {
        i
    } else {
        index_of_any_from(s, stops, i + 1)
    }
}

/// Index of the first character of `s` that is one of `stops`, or `s.len()`.
pub open spec fn index_of_any(s: Seq<char>, stops: Seq<char>) -> int {
    index_of_any_from(s, stops, 0)
}

pub proof fn lemma_index_of_any_from(s: Seq<char>, stops: Seq<char>, i: int)
    requires
        0 <= i <= s.len(),
    ensures
        i <= index_of_any_from(s, stops, i) <= s.len(),
        forall|k: int| i <= k < index_of_any_from(s, stops, i) ==> !stops.contains(s[k]),
        index_of_any_from(s, stops, i) < s.len() ==> stops.contains(
            s[index_of_any_from(s, stops, i)],
        ),
    decreases s.len() - i,
{
    if i < s.len() && !stops.contains(s[i]) {
        lemma_index_of_any_from(s, stops, i + 1);
    }
}

/// Index of the first character of `v` at or after `from` that is one of `stops`.
pub fn index_of_any_exec(v: &Vec<char>, stops: &Vec<char>, from: usize) -> (r: usize)
    requires
        from <= v@.len(),
    ensures
        r == index_of_any_from(v@, stops@, from as int),
{
    let mut i = from;
    while i < v.len()
        invariant
            from <= i <= v@.len(),
            index_of_any_from(v@, stops@, from as int) == index_of_any_from(v@, stops@, i as int),
        decreases v.len() - i,
    {
        if has_char(stops, v[i]) {
            return i;
        }
        i += 1;
    }
    i
}

// ---------------------------------------------------------------------------
// ASCII case
// ---------------------------------------------------------------------------

/// `char::to_ascii_lowercase`.
pub open spec fn ascii_lower(c: char) -> char {
    if 'A' <= c <= 'Z' {
        ((c as u32) + 32) as char
    } else {
        c
    }
}

/// `str::to_ascii_lowercase`.
pub open spec fn ascii_lower_seq(s: Seq<char>) -> Seq<char> {
    s.map_values(|c: char| ascii_lower(c))
}

/// `str::eq_ignore_ascii_case`.
pub open spec fn eq_ignore_ascii_case(a: Seq<char>, b: Seq<char>) -> bool {
    ascii_lower_seq(a) == ascii_lower_seq(b)
}

/// `char::to_ascii_lowercase`.
pub fn ascii_lower_char(c: char) -> (r: char)
    ensures
        r == ascii_lower(c),
{
    if 'A' <= c && c <= 'Z' {
        let u = (c as u32) + 32;
        proof {
            assert(u == (c as u32) + 32);
        }
        char_from_ascii_u32(u)
    } else {
        c
    }
}

/// Converts an ASCII code point to its character.
fn char_from_ascii_u32(u: u32) -> (c: char)
    requires
        u < 128,
    ensures
        c == u as char,
{
    let b = u as u8;
    b as char
}

/// `to_ascii_lowercase` of a character vector.
pub fn ascii_lower_vec(v: &Vec<char>) -> (r: Vec<char>)
    ensures
        r@ == ascii_lower_seq(v@),
{
    let mut r: Vec<char> = Vec::new();
    let mut i: usize = 0;
    while i < v.len()
        invariant
            i <= v@.len(),
            r@ =~= ascii_lower_seq(v@.take(i as int)),
        decreases v.len() - i,
    {
        r.push(ascii_lower_char(v[i]));
        i += 1;
        assert(ascii_lower_seq(v@.take(i as int)) =~= ascii_lower_seq(v@.take(i - 1)).push(
            ascii_lower(v@[i - 1]),
        ));
    }
    assert(v@.take(v@.len() as int) =~= v@);
    r
}

/// `str::eq_ignore_ascii_case` on character vectors.
pub fn eq_ignore_ascii_case_exec(a: &Vec<char>, b: &Vec<char>) -> (r: bool)
    ensures
        r == eq_ignore_ascii_case(a@, b@),
{
    let la = ascii_lower_vec(a);
    let lb = ascii_lower_vec(b);
    seq_eq(&la, &lb)
}

/// An ASCII decimal digit.
pub open spec fn is_digit(c: char) -> bool {
    '0' <= c <= '9'
}

// ---------------------------------------------------------------------------
// UTF-8 lengths
// ---------------------------------------------------------------------------

/// The number of bytes of the UTF-8 encoding of `c` (`char::len_utf8`).
pub open spec fn char_width(c: char) -> nat {
    let u = c as u32;
    if u < 0x80 {
        1
    } else if u < 0x800 {
        2
    } else if u < 0x10000 {
        3
    } else {
        4
    }
}

/// The number of bytes of the UTF-8 encoding of `s` (`str::len`).
pub open spec fn utf8_len(s: Seq<char>) -> nat
    decreases s.len(),
{
    if s.len() == 0 {
        0
    } else {
        utf8_len(s.drop_last()) + char_width(s.last())
    }
}

/// The byte offset of character index `i` in `s`.
pub open spec fn byte_offset(s: Seq<char>, i: int) -> nat {
    utf8_len(s.take(i))
}

pub proof fn lemma_utf8_len_concat(a: Seq<char>, b: Seq<char>)
    ensures
        utf8_len(a + b) == utf8_len(a) + utf8_len(b),
    decreases b.len(),
{
    if b.len() == 0 {
        assert(a + b =~= a);
    } else {
        assert((a + b).drop_last() =~= a + b.drop_last());
        lemma_utf8_len_concat(a, b.drop_last());
    }
}

pub proof fn lemma_utf8_len_mono(s: Seq<char>, i: int, j: int)
    requires
        0 <= i <= j <= s.len(),
    ensures
        byte_offset(s, i) <= byte_offset(s, j),
        byte_offset(s, j) - byte_offset(s, i) == utf8_len(s.subrange(i, j)),
        byte_offset(s, j) <= utf8_len(s),
{
    assert(s.take(j) =~= s.take(i) + s.subrange(i, j));
    lemma_utf8_len_concat(s.take(i), s.subrange(i, j));
    assert(s =~= s.take(j) + s.skip(j));
    lemma_utf8_len_concat(s.take(j), s.skip(j));
}

pub proof fn lemma_byte_offset_step(s: Seq<char>, i: int)
    requires
        0 <= i < s.len(),
    ensures
        byte_offset(s, i + 1) == byte_offset(s, i) + char_width(s[i]),
{
    assert(s.take(i + 1).drop_last() =~= s.take(i));
}

proof fn lemma_encode_scalar_len(c: char)
    ensures
        encode_scalar(c as u32).len() == char_width(c),
{
    broadcast use char_is_scalar;

}

proof fn lemma_utf8_len_first(s: Seq<char>)
    requires
        s.len() > 0,
    ensures
        utf8_len(s) == char_width(s[0]) + utf8_len(s.drop_first()),
{
    assert(s =~= seq![s[0]] + s.drop_first());
    lemma_utf8_len_concat(seq![s[0]], s.drop_first());
    assert(seq![s[0]].drop_last() =~= Seq::<char>::empty());
    assert(utf8_len(Seq::<char>::empty()) == 0);
    assert(utf8_len(seq![s[0]]) == char_width(s[0]));
}

/// `utf8_len` is the length of `vstd`'s UTF-8 encoding.
pub proof fn lemma_utf8_len_encoding(s: Seq<char>)
    ensures
        utf8_len(s) == encode_utf8(s).len(),
    decreases s.len(),
{
    if s.len() > 0 {
        lemma_utf8_len_first(s);
        lemma_encode_scalar_len(s[0]);
        lemma_utf8_len_encoding(s.drop_first());
    }
}

/// `char::len_utf8`.
pub fn char_width_exec(c: char) -> (r: usize)
    ensures
        r == char_width(c),
{
    let u = c as u32;
    if u < 0x80 {
        1
    } else if u < 0x800 {
        2
    } else if u < 0x10000 {
        3
    } else {
        4
    }
}

/// `str::len`: the byte length of `s`.
pub fn byte_len(s: &str) -> (r: usize)
    ensures
        r == utf8_len(s@),
{
    proof {
        lemma_utf8_len_encoding(s@);
    }
    s.as_bytes().len()
}

/// The byte offset of every character index of `v`, and of its end.
pub fn byte_offsets(v: &Vec<char>, total: usize) -> (r: Vec<usize>)
    requires
        total == utf8_len(v@),
    ensures
        r@.len() == v@.len() + 1,
        forall|i: int| 0 <= i <= v@.len() ==> r@[i] == byte_offset(v@, i),
{
    let mut r: Vec<usize> = Vec::new();
    let mut off: usize = 0;
    let mut i: usize = 0;
    proof {
        assert(v@.take(0) =~= Seq::<char>::empty());
    }
    while i < v.len()
        invariant
            i <= v@.len(),
            total == utf8_len(v@),
            off == byte_offset(v@, i as int),
            r@.len() == i,
            forall|k: int| 0 <= k < i ==> r@[k] == byte_offset(v@, k),
        decreases v.len() - i,
    {
        r.push(off);
        proof {
            lemma_byte_offset_step(v@, i as int);
            lemma_utf8_len_mono(v@, i + 1, v@.len() as int);
            assert(v@.take(v@.len() as int) =~= v@);
        }
        off = off + char_width_exec(v[i]);
        i += 1;
    }
    r.push(off);
    r
}

// ---------------------------------------------------------------------------
// Decimal numbers
// ---------------------------------------------------------------------------

/// The ASCII digit for `d < 10`.
pub open spec fn digit_char(d: nat) -> char {
    (('0' as u32) + d) as char
}

/// The decimal representation of `n`, as `format!("{}", n)` writes it.
pub open spec fn decimal(n: nat) -> Seq<char>
    decreases n,
{
    if n < 10 {
        seq![digit_char(n)]
    } else {
        decimal(n / 10).push(digit_char(n % 10))
    }
}

/// The ASCII digit for `d < 10`.
pub fn digit_char_exec(d: u32) -> (c: char)
    requires
        d < 10,
    ensures
        c == digit_char(d as nat),
{
    char_from_ascii_u32(48 + d)
}

/// The decimal representation of `n`.
pub fn u64_to_decimal(n: u64) -> (r: Vec<char>)
    ensures
        r@ == decimal(n as nat),
    decreases n,
{
    let d = (n % 10) as u32;
    let c = char_from_ascii_u32(48 + d);
    if n < 10 {
        let mut r: Vec<char> = Vec::new();
        r.push(c);
        assert(r@ =~= seq![digit_char(n as nat)]);
        r
    } else {
        let mut r = u64_to_decimal(n / 10);
        r.push(c);
        r
    }
}

/// Appends the decimal representation of `n`.
pub fn push_decimal(out: &mut String, n: u64)
    ensures
        final(out)@ == old(out)@ + decimal(n as nat),
{
    let d = u64_to_decimal(n);
    push_chars(out, &d, 0, d.len());
    assert(d@.subrange(0, d@.len() as int) =~= d@);
}

/// The value of a sequence of ASCII digits.
pub open spec fn digits_value(s: Seq<char>) -> nat
    decreases s.len(),
{
    if s.len() == 0 {
        0
    } else {
        digits_value(s.drop_last()) * 10 + ((s.last() as u32) - ('0' as u32)) as nat
    }
}

/// The digits that `FromStr` for an unsigned integer reads: one leading `+` is
/// skipped when more text follows it.
pub open spec fn unsigned_digits(s: Seq<char>) -> Seq<char> {
    if s.len() > 1 && s[0] == '+' {
        s.drop_first()
    } else {
        s
    }
}

/// What `str::parse` gives for an unsigned integer type whose largest value is
/// `max`.
pub open spec fn parse_unsigned(s: Seq<char>, max: nat) -> Option<nat> {
    let d = unsigned_digits(s);
    if d.len() > 0 && (forall|i: int| 0 <= i < d.len() ==> is_digit(d[i])) && digits_value(d)
        <= max {
        Some(digits_value(d))
    } else {
        None
    }
}

/// `str::parse` for an unsigned integer whose largest value is `max`.
pub fn parse_unsigned_exec(v: &Vec<char>, max: u64) -> (r: Option<u64>)
    ensures
        r matches Some(n) ==> parse_unsigned(v@, max as nat) == Some(n as nat),
        r is None ==> parse_unsigned(v@, max as nat) is None,
{
    let start: usize = if v.len() > 1 && v[0] == '+' {
        1
    } else {
        0
    };
    let ghost d = unsigned_digits(v@);
    proof {
        assert(d =~= v@.skip(start as int));
    }
    if start >= v.len() {
        return None;
    }
    let mut acc: u64 = 0;
    let mut i = start;
    while i < v.len()
        invariant
            start <= i <= v@.len(),
            d == v@.skip(start as int),
            d == unsigned_digits(v@),
            acc == digits_value(d.take(i - start)),
            acc <= max,
            forall|k: int| 0 <= k < i - start ==> is_digit(d[k]),
        decreases v.len() - i,
    {
        let c = v[i];
        proof {
            assert(d.take(i - start + 1).drop_last() =~= d.take(i - start));
        }
        if !('0' <= c && c <= '9') {
            proof {
                let j = (i - start) as int;
                assert(d[j] == c);
                assert(!is_digit(d[j]));
                assert(0 <= j < d.len());
                assert(!(forall|k: int| 0 <= k < d.len() ==> is_digit(d[k])));
                assert(unsigned_digits(v@) == d);
            }
            return None;
        }
        let digit = ((c as u32) - ('0' as u32)) as u64;
        if digit > max {
            proof {
                let j = (i - start) as int;
                assert(d.take(j + 1).last() == c);
                assert(digits_value(d.take(j + 1)) == acc * 10 + digit);
                if forall|k: int| 0 <= k < d.len() ==> is_digit(d[k]) {
                    lemma_digits_prefix_mono(d, j + 1, d.len() as int);
                    assert(d.take(d.len() as int) =~= d);
                }
            }
            return None;
        }
        if acc > (max - digit) / 10 {
            proof {
                assert(acc * 10 + digit > max) by (nonlinear_arith)
                    requires
                        acc > (max - digit) / 10,
                        digit <= max || digit > max,
                ;
                if forall|k: int| 0 <= k < d.len() ==> is_digit(d[k]) {
                    lemma_digits_prefix_mono(d, i - start + 1, d.len() as int);
                    assert(d.take(d.len() as int) =~= d);
                }
            }
            return None;
        }
        proof {
            assert(acc * 10 + digit <= max) by (nonlinear_arith)
                requires
                    acc <= (max - digit) / 10,
                    digit <= max,
            ;
        }
        acc = acc * 10 + digit;
        i += 1;
    }
    proof {
        assert(d.take(d.len() as int) =~= d);
    }
    Some(acc)
}

/// A longer run of digits is worth at least as much as its prefix.
proof fn lemma_digits_prefix_mono(d: Seq<char>, i: int, j: int)
    requires
        0 <= i <= j <= d.len(),
        forall|k: int| 0 <= k < j ==> is_digit(d[k]),
    ensures
        digits_value(d.take(i)) <= digits_value(d.take(j)),
    decreases j - i,
{
    if i < j {
        lemma_digits_prefix_mono(d, i, j - 1);
        assert(d.take(j).drop_last() =~= d.take(j - 1));
    }
}

// ---------------------------------------------------------------------------
// Lines
// ---------------------------------------------------------------------------

/// A line as `str::lines` yields it: a trailing `'\r'` is dropped from a line
/// that a `'\n'` ended.
pub open spec fn strip_cr(line: Seq<char>) -> Seq<char> {
    if line.len() > 0 && line.last() == '\r' {
        line.drop_last()
    } else {
        line
    }
}

/// The lines of `s[i..]`, as `str::lines` yields them.
pub open spec fn lines_from(s: Seq<char>, i: int) -> Seq<Seq<char>>
    decreases s.len() - i,
{
    if i >= s.len() {
        seq![]
    } else {
        match find_from(s, seq!['\n'], i) {
            Some(k) => {
                proof {
                    lemma_find_from(s, seq!['\n'], i);
                }
                seq![strip_cr(s.subrange(i, k))] + lines_from(s, k + 1)
            },
            None => seq![s.subrange(i, s.len() as int)],
        }
    }
}

/// The lines of `s` (`str::lines`).
pub open spec fn lines(s: Seq<char>) -> Seq<Seq<char>> {
    lines_from(s, 0)
}

/// The lines of `v`, each as a character vector.
pub fn lines_exec(v: &Vec<char>) -> (r: Vec<Vec<char>>)
    ensures
        r@.len() == lines(v@).len(),
        forall|k: int| 0 <= k < r@.len() ==> r@[k]@ == lines(v@)[k],
{
    let mut r: Vec<Vec<char>> = Vec::new();
    let mut i: usize = 0;
    let mut nl: Vec<char> = Vec::new();
    nl.push('\n');
    assert(nl@ =~= seq!['\n']);
    while i < v.len()
        invariant
            i <= v@.len(),
            nl@ == seq!['\n'],
            lines(v@) == r@.map_values(|x: Vec<char>| x@) + lines_from(v@, i as int),
        decreases v.len() - i,
    {
        proof {
            lemma_find_from(v@, nl@, i as int);
        }
        match find_from_exec(v, &nl, i) {
            Some(k) => {
                let mut end = k;
                if end > i && v[end - 1] == '\r' {
                    end = end - 1;
                }
                let mut line: Vec<char> = Vec::new();
                let mut t = i;
                while t < end
                    invariant
                        i <= t <= end <= v@.len(),
                        line@ == v@.subrange(i as int, t as int),
                    decreases end - t,
                {
                    line.push(v[t]);
                    t += 1;
                    assert(line@ =~= v@.subrange(i as int, t as int));
                }
                proof {
                    let seg = v@.subrange(i as int, k as int);
                    if k > i && v@[k - 1] == '\r' {
                        assert(strip_cr(seg) =~= line@);
                    } else {
                        assert(strip_cr(seg) =~= line@);
                    }
                    assert(lines_from(v@, i as int) == seq![strip_cr(seg)] + lines_from(
                        v@,
                        k + 1,
                    ));
                }
                let ghost old_r = r@;
                r.push(line);
                proof {
                    assert(r@.map_values(|x: Vec<char>| x@) =~= old_r.map_values(
                        |x: Vec<char>| x@,
                    ).push(strip_cr(v@.subrange(i as int, k as int))));
                }
                i = k + 1;
            },
            None => {
                let mut line: Vec<char> = Vec::new();
                let mut t = i;
                while t < v.len()
                    invariant
                        i <= t <= v@.len(),
                        line@ == v@.subrange(i as int, t as int),
                    decreases v.len() - t,
                {
                    line.push(v[t]);
                    t += 1;
                    assert(line@ =~= v@.subrange(i as int, t as int));
                }
                let ghost old_r = r@;
                r.push(line);
                proof {
                    assert(lines_from(v@, v@.len() as int) =~= Seq::<Seq<char>>::empty());
                    assert(r@.map_values(|x: Vec<char>| x@) =~= old_r.map_values(
                        |x: Vec<char>| x@,
                    ).push(v@.subrange(i as int, v@.len() as int)));
                }
                i = v.len();
            },
        }
    }
    proof {
        assert(lines_from(v@, i as int) =~= Seq::<Seq<char>>::empty());
        assert(lines(v@) =~= r@.map_values(|x: Vec<char>| x@));
        assert forall|k: int| 0 <= k < r@.len() implies r@[k]@ == lines(v@)[k] by {
            assert(r@.map_values(|x: Vec<char>| x@)[k] == r@[k]@);
        }
    }
    r
}

// ---------------------------------------------------------------------------
// Splitting and single characters
// ---------------------------------------------------------------------------

/// The pieces of `s` between occurrences of `c` (`str::split` with a
/// character): one more piece than there are occurrences.
pub open spec fn split_char(s: Seq<char>, c: char) -> Seq<Seq<char>>
    decreases s.len(),
{
    if s.len() == 0 {
        seq![Seq::empty()]
    } else {
        let p = split_char(s.drop_last(), c);
        if s.last() == c {
            p.push(Seq::empty())
        } else {
            p.update(p.len() - 1, p.last().push(s.last()))
        }
    }
}

pub proof fn lemma_split_char_len(s: Seq<char>, c: char)
    ensures
        split_char(s, c).len() >= 1,
    decreases s.len(),
{
    if s.len() > 0 {
        lemma_split_char_len(s.drop_last(), c);
    }
}

/// The views of a vector of character vectors.
pub open spec fn views(v: Seq<Vec<char>>) -> Seq<Seq<char>> {
    v.map_values(|x: Vec<char>| x@)
}

/// `str::split` on a character.
pub fn split_char_exec(v: &Vec<char>, c: char) -> (r: Vec<Vec<char>>)
    ensures
        views(r@) == split_char(v@, c),
{
    let mut parts: Vec<Vec<char>> = Vec::new();
    let mut cur: Vec<char> = Vec::new();
    let mut i: usize = 0;
    assert(views(parts@).push(cur@) =~= split_char(v@.take(0), c));
    while i < v.len()
        invariant
            i <= v@.len(),
            views(parts@).push(cur@) == split_char(v@.take(i as int), c),
        decreases v.len() - i,
    {
        let ghost before = views(parts@).push(cur@);
        proof {
            assert(v@.take(i as int + 1).drop_last() =~= v@.take(i as int));
            lemma_split_char_len(v@.take(i as int), c);
        }
        if v[i] == c {
            let done = cur;
            parts.push(done);
            cur = Vec::new();
            proof {
                assert(views(parts@).push(cur@) =~= before.push(Seq::empty()));
            }
        } else {
            cur.push(v[i]);
            proof {
                assert(views(parts@).push(cur@) =~= before.update(
                    before.len() - 1,
                    before.last().push(v@[i as int]),
                ));
            }
        }
        i += 1;
    }
    assert(v@.take(v@.len() as int) =~= v@);
    parts.push(cur);
    parts
}

/// The pieces of `s` between characters from `seps` (`str::split` with a set
/// of characters).
pub open spec fn split_set(s: Seq<char>, seps: Seq<char>) -> Seq<Seq<char>>
    decreases s.len(),
{
    if s.len() == 0 {
        seq![Seq::empty()]
    } else {
        let p = split_set(s.drop_last(), seps);
        if seps.contains(s.last()) {
            p.push(Seq::empty())
        } else {
            p.update(p.len() - 1, p.last().push(s.last()))
        }
    }
}

pub proof fn lemma_split_set_len(s: Seq<char>, seps: Seq<char>)
    ensures
        split_set(s, seps).len() >= 1,
    decreases s.len(),
{
    if s.len() > 0 {
        lemma_split_set_len(s.drop_last(), seps);
    }
}

/// `str::split` on a set of characters.
pub fn split_set_exec(v: &Vec<char>, seps: &Vec<char>) -> (r: Vec<Vec<char>>)
    ensures
        views(r@) == split_set(v@, seps@),
{
    let mut parts: Vec<Vec<char>> = Vec::new();
    let mut cur: Vec<char> = Vec::new();
    let mut i: usize = 0;
    assert(views(parts@).push(cur@) =~= split_set(v@.take(0), seps@));
    while i < v.len()
        invariant
            i <= v@.len(),
            views(parts@).push(cur@) == split_set(v@.take(i as int), seps@),
        decreases v.len() - i,
    {
        let ghost before = views(parts@).push(cur@);
        proof {
            assert(v@.take(i as int + 1).drop_last() =~= v@.take(i as int));
            lemma_split_set_len(v@.take(i as int), seps@);
        }
        if has_char(seps, v[i]) {
            let done = cur;
            parts.push(done);
            cur = Vec::new();
            proof {
                assert(views(parts@).push(cur@) =~= before.push(Seq::empty()));
            }
        } else {
            cur.push(v[i]);
            proof {
                assert(views(parts@).push(cur@) =~= before.update(
                    before.len() - 1,
                    before.last().push(v@[i as int]),
                ));
            }
        }
        i += 1;
    }
    assert(v@.take(v@.len() as int) =~= v@);
    parts.push(cur);
    parts
}

/// Index of the first `c` in `s`, if any.
pub open spec fn first_index_of(s: Seq<char>, c: char) -> Option<int> {
    if exists|k: int| 0 <= k < s.len() && s[k] == c {
        Some(index_of_any(s, seq![c]))
    } else {
        None
    }
}

/// Index of the last `c` in `s`, if any (`str::rfind` with a character).
pub open spec fn last_index_of(s: Seq<char>, c: char) -> Option<int>
    decreases s.len(),
{
    if s.len() == 0 {
        None
    } else if s.last() == c {
        Some(s.len() - 1)
    } else {
        last_index_of(s.drop_last(), c)
    }
}

pub proof fn lemma_last_index_of(s: Seq<char>, c: char)
    ensures
        last_index_of(s, c) matches Some(k) ==> 0 <= k < s.len() && s[k] == c && forall|j: int|
            k < j < s.len() ==> s[j] != c,
        last_index_of(s, c) is None ==> forall|j: int| 0 <= j < s.len() ==> s[j] != c,
    decreases s.len(),
{
    if s.len() > 0 && s.last() != c {
        lemma_last_index_of(s.drop_last(), c);
        assert forall|j: int| 0 <= j < s.len() - 1 implies s[j] == s.drop_last()[j] by {}
    }
}

/// Index of the first `c` in `v`, if any.
pub fn first_index_of_exec(v: &Vec<char>, c: char) -> (r: Option<usize>)
    ensures
        r matches Some(k) ==> first_index_of(v@, c) == Some(k as int),
        r is None ==> first_index_of(v@, c) is None,
        r matches Some(k) ==> k < v@.len() && v@[k as int] == c && forall|j: int|
            0 <= j < k ==> v@[j] != c,
        r is None ==> forall|j: int| 0 <= j < v@.len() ==> v@[j] != c,
{
    let mut i: usize = 0;
    while i < v.len()
        invariant
            i <= v@.len(),
            forall|j: int| 0 <= j < i ==> v@[j] != c,
        decreases v.len() - i,
    {
        if v[i] == c {
            proof {
                lemma_index_of_any_from(v@, seq![c], 0);
                let k = index_of_any(v@, seq![c]);
                if k < i {
                    assert(seq![c].contains(v@[k]));
                    assert(seq![c][0] == c);
                }
                assert(seq![c][0] == v@[i as int]);
                assert(seq![c].contains(v@[i as int]));
            }
            return Some(i);
        }
        i += 1;
    }
    None
}

/// Index of the last `c` in `v`, if any.
pub fn last_index_of_exec(v: &Vec<char>, c: char) -> (r: Option<usize>)
    ensures
        r matches Some(k) ==> last_index_of(v@, c) == Some(k as int),
        r is None ==> last_index_of(v@, c) is None,
{
    let mut i: usize = v.len();
    assert(v@.take(v@.len() as int) =~= v@);
    while i > 0
        invariant
            i <= v@.len(),
            last_index_of(v@, c) == last_index_of(v@.take(i as int), c),
        decreases i,
    {
        proof {
            assert(v@.take(i as int).drop_last() =~= v@.take(i - 1));
        }
        if v[i - 1] == c {
            return Some(i - 1);
        }
        i -= 1;
    }
    None
}

/// How many times `c` occurs in `s`.
pub open spec fn count_char(s: Seq<char>, c: char) -> nat
    decreases s.len(),
{
    if s.len() == 0 {
        0
    } else {
        count_char(s.drop_last(), c) + if s.last() == c {
            1nat
        } else {
            0nat
        }
    }
}

/// How many times `c` occurs in `v`.
pub fn count_char_exec(v: &Vec<char>, c: char) -> (r: usize)
    ensures
        r == count_char(v@, c),
{
    let mut n: usize = 0;
    let mut i: usize = 0;
    while i < v.len()
        invariant
            i <= v@.len(),
            n == count_char(v@.take(i as int), c),
            n <= i,
        decreases v.len() - i,
    {
        proof {
            assert(v@.take(i as int + 1).drop_last() =~= v@.take(i as int));
        }
        if v[i] == c {
            n += 1;
        }
        i += 1;
    }
    assert(v@.take(v@.len() as int) =~= v@);
    n
}

/// `s` without its leading characters from `set`.
pub open spec fn strip_start_set(s: Seq<char>, set: Seq<char>) -> Seq<char>
    decreases s.len(),
{
    if s.len() > 0 && set.contains(s[0]) {
        strip_start_set(s.drop_first(), set)
    } else {
        s
    }
}

/// `s` without its trailing characters from `set`.
pub open spec fn strip_end_set(s: Seq<char>, set: Seq<char>) -> Seq<char>
    decreases s.len(),
{
    if s.len() > 0 && set.contains(s.last()) {
        strip_end_set(s.drop_last(), set)
    } else {
        s
    }
}

/// `str::trim_matches` with a set of characters.
pub open spec fn strip_set(s: Seq<char>, set: Seq<char>) -> Seq<char> {
    strip_end_set(strip_start_set(s, set), set)
}

/// `str::trim_start_matches` with a set of characters.
pub fn strip_start_set_exec(v: &Vec<char>, set: &Vec<char>) -> (r: Vec<char>)
    ensures
        r@ == strip_start_set(v@, set@),
{
    let mut a: usize = 0;
    assert(v@.skip(0) =~= v@);
    while a < v.len() && has_char(set, v[a])
        invariant
            a <= v@.len(),
            strip_start_set(v@, set@) == strip_start_set(v@.skip(a as int), set@),
        decreases v.len() - a,
    {
        assert(v@.skip(a as int).drop_first() =~= v@.skip(a as int + 1));
        a += 1;
    }
    let mut r: Vec<char> = Vec::new();
    let mut i = a;
    while i < v.len()
        invariant
            a <= i <= v@.len(),
            r@ == v@.subrange(a as int, i as int),
        decreases v.len() - i,
    {
        r.push(v[i]);
        i += 1;
        assert(r@ =~= v@.subrange(a as int, i as int));
    }
    assert(r@ =~= v@.skip(a as int));
    r
}

/// `str::trim_end_matches` with a set of characters.
pub fn strip_end_set_exec(v: &Vec<char>, set: &Vec<char>) -> (r: Vec<char>)
    ensures
        r@ == strip_end_set(v@, set@),
{
    let mut b: usize = v.len();
    assert(v@.take(v@.len() as int) =~= v@);
    while b > 0 && has_char(set, v[b - 1])
        invariant
            b <= v@.len(),
            strip_end_set(v@, set@) == strip_end_set(v@.take(b as int), set@),
        decreases b,
    {
        assert(v@.take(b as int).drop_last() =~= v@.take(b - 1));
        b -= 1;
    }
    let mut r: Vec<char> = Vec::new();
    let mut i: usize = 0;
    while i < b
        invariant
            i <= b <= v@.len(),
            r@ == v@.take(i as int),
        decreases b - i,
    {
        r.push(v[i]);
        i += 1;
        assert(r@ =~= v@.take(i as int));
    }
    r
}

/// `str::trim_matches` with a set of characters.
pub fn strip_set_exec(v: &Vec<char>, set: &Vec<char>) -> (r: Vec<char>)
    ensures
        r@ == strip_set(v@, set@),
{
    let a = strip_start_set_exec(v, set);
    strip_end_set_exec(&a, set)
}

} // verus!
