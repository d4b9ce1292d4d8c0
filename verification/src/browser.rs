//! The in-app browser tab: address normalisation and tab titles.
use vstd::prelude::*;
use crate::text::{
    chars_of, concat, contains_exec, contains_seq, occurs_at, find, find_exec, index_of_any,
    index_of_any_exec, lemma_find, lemma_index_of_any_from, string_of_range, trim, trim_bounds,
    trim_str,
};

verus! {

/// `"://"`, the separator between a URL's scheme and the rest.
pub open spec fn scheme_sep() -> Seq<char> {
    seq![':', '/', '/']
}

/// The text after the first `"://"`, or all of `t` when there is none.
pub open spec fn after_scheme(t: Seq<char>) -> Seq<char> {
    match find(t, scheme_sep()) {
        Some(i) => t.skip(i + 3),
        None => t,
    }
}

/// The characters that end a URL's host part.
pub open spec fn host_stops() -> Seq<char> {
    seq!['/', '?', '#']
}

/// The title a browser tab shows for `url`: its host, or the browser's name
/// while no address has been entered.
pub open spec fn tab_title(url: Seq<char>) -> Seq<char> {
    let rest = after_scheme(trim(url));
    let host = rest.take(index_of_any(rest, host_stops()));
    if host.len() == 0 {
        "Pusa 浏览器"@
    } else {
        host
    }
}

/// The address the browser loads for what was typed: `None` for blank input,
/// the trimmed text when it names a scheme, and `https://` before it otherwise.
pub open spec fn normalized_url(raw: Seq<char>) -> Option<Seq<char>> {
    let t = trim(raw);
    if t.len() == 0 {
        None
    } else if contains_seq(t, scheme_sep()) {
        Some(t)
    } else {
        Some("https://"@ + t)
    }
}

fn scheme_sep_vec() -> (r: Vec<char>)
    ensures
        r@ == scheme_sep(),
{
    let mut r = Vec::new();
    r.push(':');
    r.push('/');
    r.push('/');
    assert(r@ =~= scheme_sep());
    r
}

/// The text after the first `"://"` of `t`.
pub fn after_scheme_exec(t: &Vec<char>) -> (r: Vec<char>)
    ensures
        r@ == after_scheme(t@),
{
    let sep = scheme_sep_vec();
    proof {
        lemma_find(t@, sep@);
    }
    match find_exec(t, &sep) {
        Some(i) => {
            assert(occurs_at(t@, sep@, i as int));
            assert(sep@.len() == 3);
            let n = t.len();
            let s = string_of_range(t, i + 3, n);
            let r = chars_of(s.as_str());
            assert(r@ =~= t@.skip(i + 3));
            r
        },
        None => t.clone(),
    }
}

/// Tab title for the in-app browser: the host of `url`, or `Pusa 浏览器`.
pub fn browser_tab_title(url: &str) -> (r: String)
    ensures
        r@ == tab_title(url@),
{
    let v = chars_of(url);
    let (a, b) = trim_bounds(&v);
    let t = chars_of(string_of_range(&v, a, b).as_str());
    let rest = after_scheme_exec(&t);
    let mut stops = Vec::new();
    stops.push('/');
    stops.push('?');
    stops.push('#');
    assert(stops@ =~= host_stops());
    let end = index_of_any_exec(&rest, &stops, 0);
    proof {
        lemma_index_of_any_from(rest@, stops@, 0);
    }
    if end == 0 {
        assert(rest@.take(0).len() == 0);
        "Pusa 浏览器".to_string()
    } else {
        string_of_range(&rest, 0, end)
    }
}

/// Normalises an address typed into the browser bar.
pub fn normalize_browser_url(raw: &str) -> (r: Option<String>)
    ensures
        r matches Some(s) ==> normalized_url(raw@) == Some(s@),
        r is None ==> normalized_url(raw@) is None,
{
    let t = trim_str(raw);
    let tv = chars_of(t.as_str());
    if tv.len() == 0 {
        return None;
    }
    let sep = scheme_sep_vec();
    if contains_exec(&tv, &sep) {
        Some(t)
    } else {
        Some(concat("https://", t.as_str()))
    }
}

// ---------------------------------------------------------------------------
// Laws
// ---------------------------------------------------------------------------

/// Text that starts and ends with non-blank characters is its own trim.
proof fn lemma_trim_fixed(s: Seq<char>)
    requires
        s.len() > 0,
        !crate::text::is_ws(s[0]),
        !crate::text::is_ws(s.last()),
    ensures
        trim(s) == s,
{
    assert(crate::text::trim_start(s) == s);
    assert(crate::text::trim_end(s) == s);
}

/// Normalising an address that was already normalised gives it back.
pub proof fn law_normalize_idempotent(raw: Seq<char>)
    requires
        normalized_url(raw) is Some,
    ensures
        normalized_url(normalized_url(raw)->0) == normalized_url(raw),
{
    let t = trim(raw);
    crate::text::lemma_trim_idempotent(raw);
    if !contains_seq(t, scheme_sep()) {
        let u = crate::text::trim_start(raw);
        crate::text::lemma_trim_start_shape(raw);
        crate::text::lemma_trim_end_shape(u);
        assert(t[0] == u[0]);
        let w = "https://"@ + t;
        reveal_strlit("https://");
        assert(w[0] == 'h');
        assert(w.last() == t.last());
        lemma_trim_fixed(w);
        assert(w.subrange(5, 8) =~= scheme_sep());
        assert(occurs_at(w, scheme_sep(), 5));
    }
}

/// Normalising an address never changes the title of its tab.
pub proof fn law_normalize_keeps_title(raw: Seq<char>)
    requires
        normalized_url(raw) is Some,
    ensures
        tab_title(normalized_url(raw)->0) == tab_title(raw),
{
    let t = trim(raw);
    crate::text::lemma_trim_idempotent(raw);
    crate::text::lemma_find(t, scheme_sep());
    if !contains_seq(t, scheme_sep()) {
        let u = crate::text::trim_start(raw);
        crate::text::lemma_trim_start_shape(raw);
        crate::text::lemma_trim_end_shape(u);
        assert(t[0] == u[0]);
        let w = "https://"@ + t;
        reveal_strlit("https://");
        assert(w[0] == 'h');
        assert(w.last() == t.last());
        lemma_trim_fixed(w);
        assert(w.subrange(5, 8) =~= scheme_sep());
        assert(occurs_at(w, scheme_sep(), 5));
        crate::text::lemma_find(w, scheme_sep());
        assert forall|j: int| 0 <= j < 5 implies !occurs_at(w, scheme_sep(), j) by {
            assert(w[j + 1] != '/' || w[j] != ':');
            if occurs_at(w, scheme_sep(), j) {
                assert(w.subrange(j, j + 3) == scheme_sep());
                assert(w[j] == w.subrange(j, j + 3)[0]);
                assert(w[j + 1] == w.subrange(j, j + 3)[1]);
            }
        }
        assert(find(w, scheme_sep()) == Some(5int));
        assert(after_scheme(w) =~= t);
        assert(after_scheme(t) == t);
    }
}

/// A tab's title is the browser's name, or a host: non-empty text without
/// `/`, `?` or `#`.
pub proof fn law_title_is_name_or_host(url: Seq<char>)
    ensures
        tab_title(url) == "Pusa 浏览器"@ || (tab_title(url).len() > 0 && forall|k: int|
            0 <= k < tab_title(url).len() ==> !host_stops().contains(#[trigger] tab_title(url)[k])),
{
    let rest = after_scheme(trim(url));
    crate::text::lemma_index_of_any_from(rest, host_stops(), 0);
    let host = rest.take(index_of_any(rest, host_stops()));
    if host.len() > 0 {
        assert forall|k: int| 0 <= k < host.len() implies !host_stops().contains(#[trigger] host[k]) by {
            assert(host[k] == rest[k]);
        }
    }
}

/// The actions of the tab strip's menu.
#[derive(Clone, Copy, Debug, PartialEq, Eq, Structural)]
pub enum TabStripMenuAction {
    /// Open a new browser tab.
    OpenBrowser,
}

/// A counter that the title bar bumps to ask the console for a new browser
/// tab: every change of the value is one request.
pub struct OpenBrowserTick(pub u64);

impl OpenBrowserTick {
    /// The value after one request: the next count, wrapping to zero after
    /// the largest.
    pub open spec fn next_tick(n: u64) -> u64 {
        if n == u64::MAX {
            0
        } else {
            (n + 1) as u64
        }
    }

    /// Asks for one new browser tab. The value always changes, so the request
    /// is never lost.
    pub fn request(&mut self)
        ensures
            final(self).0 == Self::next_tick(old(self).0),
            final(self).0 != old(self).0,
    {
        self.0 = self.0.wrapping_add(1);
    }
}

} // verus!
