//! The extension market: cards and their meta lines, the catalogue of known
//! cards, Open VSX search results (query plan, merging, ordering), URL
//! encoding, and the letter shown in place of a missing icon.
use vstd::prelude::*;
use vstd::utf8::encode_utf8;
use crate::text::{
    ascii_lower_seq, ascii_lower_vec, chars_of, concat, contains_exec, contains_seq, decimal,
    is_ws, push_char, push_decimal, starts_with, str_eq, str_starts_with, trim, trim_start,
    trim_start_str, trim_str,
};

verus! {

broadcast use vstd::seq_lib::group_seq_properties;

/// An extension as the market and the installed list show it.
#[derive(Clone, Debug, PartialEq)]
pub struct PluginCard {
    pub id: String,
    pub name: String,
    pub description: String,
    pub source_label: String,
    pub language: Option<String>,
    pub stars: Option<u64>,
    pub mentions: Option<u64>,
    pub homepage: String,
    /// The `.vsix` download URL.
    pub git_url: String,
    pub installed: bool,
    pub install_key: String,
    pub highlight_priority: bool,
    pub version: Option<String>,
    /// The icon URL; the name's first letter stands in without one.
    pub icon_url: Option<String>,
}

pub struct CardView {
    pub id: Seq<char>,
    pub name: Seq<char>,
    pub description: Seq<char>,
    pub source_label: Seq<char>,
    pub language: Option<Seq<char>>,
    pub stars: Option<u64>,
    pub mentions: Option<u64>,
    pub homepage: Seq<char>,
    pub git_url: Seq<char>,
    pub installed: bool,
    pub install_key: Seq<char>,
    pub highlight_priority: bool,
    pub version: Option<Seq<char>>,
    pub icon_url: Option<Seq<char>>,
}

pub open spec fn opt_text(o: Option<String>) -> Option<Seq<char>> {
    match o {
        Some(s) => Some(s@),
        None => None,
    }
}

impl View for PluginCard {
    type V = CardView;

    open spec fn view(&self) -> CardView {
        CardView {
            id: self.id@,
            name: self.name@,
            description: self.description@,
            source_label: self.source_label@,
            language: opt_text(self.language),
            stars: self.stars,
            mentions: self.mentions,
            homepage: self.homepage@,
            git_url: self.git_url@,
            installed: self.installed,
            install_key: self.install_key@,
            highlight_priority: self.highlight_priority,
            version: opt_text(self.version),
            icon_url: opt_text(self.icon_url),
        }
    }
}

pub open spec fn cards_view(v: Seq<PluginCard>) -> Seq<CardView> {
    v.map_values(|c: PluginCard| c@)
}

fn copy_opt(o: &Option<String>) -> (r: Option<String>)
    ensures
        opt_text(r) == opt_text(*o),
{
    match o {
        Some(s) => Some(s.clone()),
        None => None,
    }
}

/// A copy of a card.
pub fn copy_card(c: &PluginCard) -> (r: PluginCard)
    ensures
        r@ == c@,
{
    PluginCard {
        id: c.id.clone(),
        name: c.name.clone(),
        description: c.description.clone(),
        source_label: c.source_label.clone(),
        language: copy_opt(&c.language),
        stars: c.stars,
        mentions: c.mentions,
        homepage: c.homepage.clone(),
        git_url: c.git_url.clone(),
        installed: c.installed,
        install_key: c.install_key.clone(),
        highlight_priority: c.highlight_priority,
        version: copy_opt(&c.version),
        icon_url: copy_opt(&c.icon_url),
    }
}

// ---------------------------------------------------------------------------
// Meta lines
// ---------------------------------------------------------------------------

/// `parts` joined with ` · `.
pub open spec fn joined(parts: Seq<Seq<char>>) -> Seq<char>
    decreases parts.len(),
{
    if parts.len() == 0 {
        Seq::empty()
    } else if parts.len() == 1 {
        parts[0]
    } else {
        joined(parts.drop_last()) + " · "@ + parts.last()
    }
}

/// `parts` joined with ` · `.
pub fn join_parts(parts: &Vec<String>) -> (r: String)
    ensures
        r@ == joined(crate::llm_enabled::ids(parts@)),
{
    let ghost ps = crate::llm_enabled::ids(parts@);
    let mut out = String::new();
    let mut i: usize = 0;
    while i < parts.len()
        invariant
            i <= parts@.len(),
            ps == crate::llm_enabled::ids(parts@),
            out@ == joined(ps.take(i as int)),
        decreases parts.len() - i,
    {
        assert(ps.take(i as int + 1).drop_last() =~= ps.take(i as int));
        assert(ps[i as int] == parts@[i as int]@);
        if i > 0 {
            out.append(" · ");
        }
        out.append(parts[i].as_str());
        proof {
            if i == 0 {
                assert(ps.take(1).len() == 1);
                assert(Seq::<char>::empty() + ps[0] =~= ps[0]);
            }
        }
        i += 1;
    }
    assert(ps.take(ps.len() as int) =~= ps);
    out
}

/// The language shown among a card's meta: trimmed, unless empty or one of
/// the markers of highlighting extensions.
pub open spec fn language_label(lang: Option<Seq<char>>) -> Option<Seq<char>> {
    match lang {
        Some(l) => {
            let t = trim(l);
            if t.len() == 0 || t == "语法高亮"@ || t == "语法高亮优先"@ {
                None
            } else {
                Some(t)
            }
        },
        None => None,
    }
}

/// The language shown among a card's meta.
pub fn language_meta_label(card: &PluginCard) -> (r: Option<String>)
    ensures
        opt_text(r) == language_label(card@.language),
{
    match &card.language {
        Some(l) => {
            let t = trim_str(l.as_str());
            if t.as_str().is_empty() || str_eq(t.as_str(), "语法高亮") || str_eq(t.as_str(), "语法高亮优先") {
                None
            } else {
                Some(t)
            }
        },
        None => None,
    }
}

/// The optional parts of a card's meta: language, `v` + version, and the
/// download count after `stars_prefix`.
pub open spec fn optional_parts(c: CardView, stars_prefix: Seq<char>) -> Seq<Seq<char>> {
    (match language_label(c.language) {
        Some(l) => seq![l],
        None => Seq::empty(),
    }) + (match c.version {
        Some(v) => seq!["v"@ + v],
        None => Seq::empty(),
    }) + (match c.stars {
        Some(n) => seq![stars_prefix + decimal(n as nat)],
        None => Seq::empty(),
    })
}

/// The meta line of a card in the list: source, language, version, downloads.
pub open spec fn card_meta(c: CardView) -> Seq<char> {
    joined(seq![c.source_label] + optional_parts(c, "↓"@))
}

/// The meta line of a card's detail page (no source).
pub open spec fn detail_meta(c: CardView) -> Seq<char> {
    joined(optional_parts(c, "下载 "@))
}

fn push_optional_parts(parts: &mut Vec<String>, card: &PluginCard, stars_prefix: &str)
    ensures
        crate::llm_enabled::ids(final(parts)@) == crate::llm_enabled::ids(old(parts)@) + optional_parts(card@, stars_prefix@),
{
    let ghost start = crate::llm_enabled::ids(parts@);
    let ghost p1 = match language_label(card@.language) {
        Some(l) => seq![l],
        None => Seq::<Seq<char>>::empty(),
    };
    let ghost p2 = match card@.version {
        Some(v) => seq!["v"@ + v],
        None => Seq::<Seq<char>>::empty(),
    };
    let ghost p3 = match card@.stars {
        Some(n) => seq![stars_prefix@ + decimal(n as nat)],
        None => Seq::<Seq<char>>::empty(),
    };
    match language_meta_label(card) {
        Some(l) => {
            parts.push(l);
        },
        None => {},
    }
    assert(crate::llm_enabled::ids(parts@) =~= start + p1);
    match &card.version {
        Some(v) => {
            parts.push(concat("v", v.as_str()));
        },
        None => {},
    }
    assert(crate::llm_enabled::ids(parts@) =~= start + p1 + p2);
    match card.stars {
        Some(n) => {
            let mut s = stars_prefix.to_string();
            push_decimal(&mut s, n);
            parts.push(s);
        },
        None => {},
    }
    assert(crate::llm_enabled::ids(parts@) =~= start + p1 + p2 + p3);
    assert(p1 + p2 + p3 =~= optional_parts(card@, stars_prefix@));
}

/// The meta line of a card in the list.
pub fn format_meta(card: &PluginCard) -> (r: String)
    ensures
        r@ == card_meta(card@),
{
    let mut parts: Vec<String> = Vec::new();
    parts.push(card.source_label.clone());
    assert(crate::llm_enabled::ids(parts@) =~= seq![card@.source_label]);
    push_optional_parts(&mut parts, card, "↓");
    join_parts(&parts)
}

/// The meta line of a card's detail page.
pub fn format_detail_meta(card: &PluginCard) -> (r: String)
    ensures
        r@ == detail_meta(card@),
{
    let mut parts: Vec<String> = Vec::new();
    assert(crate::llm_enabled::ids(parts@) =~= Seq::<Seq<char>>::empty());
    push_optional_parts(&mut parts, card, "下载 ");
    assert(Seq::<Seq<char>>::empty() + optional_parts(card@, "下载 "@) =~= optional_parts(card@, "下载 "@));
    join_parts(&parts)
}

/// Where an extension is installed, relative to the workspace.
pub fn detail_install_path(card: &PluginCard) -> (r: String)
    ensures
        r@ == "extensions/"@ + card@.id + "/"@,
{
    let mut s = concat("extensions/", card.id.as_str());
    s.append("/");
    s
}

/// The description shown on a detail page: trimmed, without a leading
/// "已安装到" notice, and empty when only the install path remains.
pub open spec fn shown_description(raw: Seq<char>, install_path: Seq<char>) -> Seq<char> {
    let t = trim(raw);
    let t2 = if starts_with(t, "已安装到"@) {
        trim_start(t.skip("已安装到"@.len() as int))
    } else {
        t
    };
    if t2.len() == 0 || t2 == install_path {
        Seq::empty()
    } else {
        t2
    }
}

/// The description shown on a detail page.
pub fn detail_description(raw: &str, install_path: &str) -> (r: String)
    ensures
        r@ == shown_description(raw@, install_path@),
{
    let t = trim_str(raw);
    let t2 = if str_starts_with(t.as_str(), "已安装到") {
        let tv = chars_of(t.as_str());
        let p = chars_of("已安装到");
        let n = tv.len();
        let rest = crate::text::string_of_range(&tv, p.len(), n);
        assert(rest@ =~= t@.skip("已安装到"@.len() as int));
        trim_start_str(rest.as_str())
    } else {
        t
    };
    if t2.as_str().is_empty() || str_eq(t2.as_str(), install_path) {
        String::new()
    } else {
        t2
    }
}

// ---------------------------------------------------------------------------
// The catalogue
// ---------------------------------------------------------------------------

/// The position of the card with install key `key`, if any.
pub open spec fn key_pos(cs: Seq<CardView>, key: Seq<char>) -> Option<int>
    decreases cs.len(),
{
    if cs.len() == 0 {
        None
    } else {
        match key_pos(cs.drop_last(), key) {
            Some(i) => Some(i),
            None => if cs.last().install_key == key {
                Some(cs.len() - 1)
            } else {
                None
            },
        }
    }
}

pub proof fn lemma_key_pos(cs: Seq<CardView>, key: Seq<char>)
    ensures
        key_pos(cs, key) matches Some(i) ==> 0 <= i < cs.len() && cs[i].install_key == key && forall|j: int|
            0 <= j < i ==> (#[trigger] cs[j]).install_key != key,
        key_pos(cs, key) is None ==> forall|j: int| 0 <= j < cs.len() ==> (#[trigger] cs[j]).install_key != key,
    decreases cs.len(),
{
    if cs.len() > 0 {
        lemma_key_pos(cs.drop_last(), key);
        assert forall|j: int| 0 <= j < cs.len() - 1 implies cs[j] == cs.drop_last()[j] by {}
    }
}

fn find_card(catalog: &Vec<PluginCard>, key: &str) -> (r: Option<usize>)
    ensures
        match r {
            Some(i) => key_pos(cards_view(catalog@), key@) == Some(i as int) && i < catalog@.len(),
            None => key_pos(cards_view(catalog@), key@) is None,
        },
{
    let ghost cv = cards_view(catalog@);
    let mut i: usize = 0;
    while i < catalog.len()
        invariant
            i <= catalog@.len(),
            cv == cards_view(catalog@),
            forall|j: int| 0 <= j < i ==> (#[trigger] cv[j]).install_key != key@,
        decreases catalog.len() - i,
    {
        assert(cv[i as int] == catalog@[i as int]@);
        if str_eq(catalog[i].install_key.as_str(), key) {
            proof {
                lemma_key_pos(cv, key@);
                match key_pos(cv, key@) {
                    Some(j) => {
                        if j > i {
                            assert(cv[i as int].install_key == key@);
                        }
                    },
                    None => {
                        assert(cv[i as int].install_key == key@);
                    },
                }
            }
            return Some(i);
        }
        i += 1;
    }
    proof {
        lemma_key_pos(cv, key@);
        if let Some(j) = key_pos(cv, key@) {
            assert(cv[j].install_key == key@);
        }
    }
    None
}

/// The catalogue after `card` came in: it replaces the card with its install
/// key, or is added at the end.
pub open spec fn upserted(cs: Seq<CardView>, c: CardView) -> Seq<CardView> {
    match key_pos(cs, c.install_key) {
        Some(i) => cs.update(i, c),
        None => cs.push(c),
    }
}

/// Puts `card` in the catalogue, replacing the card with its install key.
pub fn upsert_catalog(catalog: &mut Vec<PluginCard>, card: PluginCard)
    ensures
        cards_view(final(catalog)@) == upserted(cards_view(old(catalog)@), card@),
{
    let ghost before = cards_view(catalog@);
    match find_card(catalog, card.install_key.as_str()) {
        Some(i) => {
            let _ = catalog.remove(i);
            catalog.insert(i, card);
            assert(cards_view(catalog@) =~= before.update(i as int, catalog@[i as int]@));
        },
        None => {
            catalog.push(card);
            assert(cards_view(catalog@) =~= before.push(catalog@[catalog@.len() - 1]@));
        },
    }
}

/// The catalogue after each of `cards` came in, in order.
pub open spec fn synced(cs: Seq<CardView>, cards: Seq<CardView>) -> Seq<CardView>
    decreases cards.len(),
{
    if cards.len() == 0 {
        cs
    } else {
        upserted(synced(cs, cards.drop_last()), cards.last())
    }
}

/// Puts each of `cards` in the catalogue.
pub fn sync_catalog(catalog: &mut Vec<PluginCard>, cards: &Vec<PluginCard>)
    ensures
        cards_view(final(catalog)@) == synced(cards_view(old(catalog)@), cards_view(cards@)),
{
    let ghost start = cards_view(catalog@);
    let ghost cv = cards_view(cards@);
    let mut i: usize = 0;
    while i < cards.len()
        invariant
            i <= cards@.len(),
            cv == cards_view(cards@),
            cards_view(catalog@) == synced(start, cv.take(i as int)),
        decreases cards.len() - i,
    {
        assert(cv.take(i as int + 1).drop_last() =~= cv.take(i as int));
        assert(cv[i as int] == cards@[i as int]@);
        upsert_catalog(catalog, copy_card(&cards[i]));
        i += 1;
    }
    assert(cv.take(cv.len() as int) =~= cv);
}

/// Marks every card with install key `key` installed or not.
pub fn mark_catalog_installed(catalog: &mut Vec<PluginCard>, key: &str, installed: bool)
    ensures
        final(catalog)@.len() == old(catalog)@.len(),
        forall|i: int| 0 <= i < old(catalog)@.len() ==> (#[trigger] cards_view(final(catalog)@)[i]) == if cards_view(
            old(catalog)@,
        )[i].install_key == key@ {
            CardView { installed, ..cards_view(old(catalog)@)[i] }
        } else {
            cards_view(old(catalog)@)[i]
        },
{
    let ghost before = cards_view(catalog@);
    let n = catalog.len();
    let mut i: usize = 0;
    while i < n
        invariant
            i <= n == catalog@.len() == before.len(),
            forall|q: int| 0 <= q < i ==> (#[trigger] cards_view(catalog@)[q]) == if before[q].install_key == key@ {
                CardView { installed, ..before[q] }
            } else {
                before[q]
            },
            forall|q: int| i <= q < n ==> (#[trigger] cards_view(catalog@)[q]) == before[q],
        decreases n - i,
    {
        assert(cards_view(catalog@)[i as int] == catalog@[i as int]@);
        if str_eq(catalog[i].install_key.as_str(), key) {
            let ghost pre = cards_view(catalog@);
            let mut c = catalog.remove(i);
            c.installed = installed;
            catalog.insert(i, c);
            assert(cards_view(catalog@) =~= pre.update(i as int, CardView { installed, ..before[i as int] }));
        }
        i += 1;
    }
}

/// Drops every card with install key `key`, keeping the others in order.
pub fn remove_catalog_card(catalog: &mut Vec<PluginCard>, key: &str)
    ensures
        cards_view(final(catalog)@) == cards_view(old(catalog)@).filter(|c: CardView| c.install_key != key@),
{
    let ghost before = cards_view(catalog@);
    let ghost pred = |c: CardView| c.install_key != key@;
    let mut kept: Vec<PluginCard> = Vec::new();
    let mut i: usize = 0;
    while i < catalog.len()
        invariant
            i <= catalog@.len(),
            before == cards_view(catalog@),
            pred == (|c: CardView| c.install_key != key@),
            cards_view(kept@) == before.take(i as int).filter(pred),
        decreases catalog.len() - i,
    {
        proof {
            assert(before.take(i as int + 1) =~= before.take(i as int).push(before[i as int]));
            before.take(i as int).lemma_filter_push(before[i as int], pred);
        }
        assert(before[i as int] == catalog@[i as int]@);
        if !str_eq(catalog[i].install_key.as_str(), key) {
            let ghost pre = cards_view(kept@);
            kept.push(copy_card(&catalog[i]));
            assert(cards_view(kept@) =~= pre.push(before[i as int]));
        }
        i += 1;
    }
    assert(before.take(before.len() as int) =~= before);
    *catalog = kept;
}

// ---------------------------------------------------------------------------
// Icons
// ---------------------------------------------------------------------------

/// The letter shown in place of an icon: the first non-blank character of the
/// name in upper case, or `·`.
pub open spec fn initial_of(name: Seq<char>) -> Seq<char> {
    let t = trim_start(name);
    if t.len() == 0 {
        "·"@
    } else if crate::search::uppercase(seq![t[0]]).len() == 0 {
        "·"@
    } else {
        crate::search::uppercase(seq![t[0]])
    }
}

/// The letter shown in place of an icon.
pub fn plugin_initial(name: &str) -> (r: String)
    ensures
        r@ == initial_of(name@),
{
    let t = chars_of(trim_start_str(name).as_str());
    if t.len() == 0 {
        return "·".to_string();
    }
    let first = crate::text::string_of_range(&t, 0, 1);
    assert(first@ =~= seq![t@[0]]);
    let up = crate::search::str_to_uppercase(first.as_str());
    if up.as_str().is_empty() {
        "·".to_string()
    } else {
        up
    }
}

/// The icon to load: a trimmed `https://`, `http://` or `file://` URL.
pub open spec fn glyph_url(icon: Option<Seq<char>>) -> Option<Seq<char>> {
    match icon {
        Some(u) => {
            let t = trim(u);
            if t.len() > 0 && (starts_with(t, "https://"@) || starts_with(t, "http://"@) || starts_with(t, "file://"@)) {
                Some(t)
            } else {
                None
            }
        },
        None => None,
    }
}

/// The icon URL a glyph loads, if any.
pub fn plugin_glyph_url(icon_url: &Option<String>) -> (r: Option<String>)
    ensures
        opt_text(r) == glyph_url(opt_text(*icon_url)),
{
    match icon_url {
        Some(u) => {
            let t = trim_str(u.as_str());
            let s = t.as_str();
            if !s.is_empty() && (str_starts_with(s, "https://") || str_starts_with(s, "http://") || str_starts_with(s, "file://")) {
                Some(t)
            } else {
                None
            }
        },
        None => None,
    }
}

/// The CSS classes of a glyph's box.
pub fn plugin_glyph_class(large: bool, show_img: bool) -> (r: &'static str)
    ensures
        large && show_img ==> r@ == "ac-skills-detail-icon ac-plugin-icon-has-img"@,
        large && !show_img ==> r@ == "ac-skills-detail-icon ac-skill-icon-blue"@,
        !large && show_img ==> r@ == "ac-skills-list-icon ac-plugin-icon-has-img"@,
        !large && !show_img ==> r@ == "ac-skills-list-icon ac-skill-icon-blue"@,
{
    if large {
        if show_img {
            "ac-skills-detail-icon ac-plugin-icon-has-img"
        } else {
            "ac-skills-detail-icon ac-skill-icon-blue"
        }
    } else if show_img {
        "ac-skills-list-icon ac-plugin-icon-has-img"
    } else {
        "ac-skills-list-icon ac-skill-icon-blue"
    }
}

/// The AI model for smart UIs: the saved chat model, trimmed, unless blank;
/// else the default.
pub fn resolve_ai_model(saved: &Option<String>) -> (r: String)
    ensures
        r@ == match saved {
            Some(s) => if trim(s@).len() > 0 {
                trim(s@)
            } else {
                crate::skills::DEFAULT_CHAT_MODEL_ID@
            },
            None => crate::skills::DEFAULT_CHAT_MODEL_ID@,
        },
{
    match saved {
        Some(s) => {
            let t = trim_str(s.as_str());
            if !t.as_str().is_empty() {
                return t;
            }
        },
        None => {},
    }
    crate::skills::DEFAULT_CHAT_MODEL_ID.to_string()
}

// ---------------------------------------------------------------------------
// URL encoding
// ---------------------------------------------------------------------------

/// Bytes that stay as they are in a URL query.
pub open spec fn unreserved(b: u8) -> bool {
    (65 <= b <= 90) || (97 <= b <= 122) || (48 <= b <= 57) || b == 45 || b == 95 || b == 46 || b == 126
}

/// The upper-case hex digit of `n < 16`.
pub open spec fn hex_digit(n: nat) -> char {
    if n < 10 {
        ((48 + n) as u32) as char
    } else {
        ((55 + n) as u32) as char
    }
}

/// One byte as it appears in an encoded URL query.
pub open spec fn encoded_byte(b: u8) -> Seq<char> {
    if unreserved(b) {
        seq![(b as u32) as char]
    } else {
        seq!['%', hex_digit((b / 16) as nat), hex_digit((b % 16) as nat)]
    }
}

/// Bytes as they appear in an encoded URL query.
pub open spec fn url_encoded(bs: Seq<u8>) -> Seq<char>
    decreases bs.len(),
{
    if bs.len() == 0 {
        Seq::empty()
    } else {
        url_encoded(bs.drop_last()) + encoded_byte(bs.last())
    }
}

fn hex_digit_exec(n: u8) -> (c: char)
    requires
        n < 16,
    ensures
        c == hex_digit(n as nat),
{
    if n < 10 {
        (48 + n) as char
    } else {
        (55 + n) as char
    }
}

/// Percent-encodes the UTF-8 bytes of `s` for a URL query (letters, digits
/// and `-_.~` stay).
pub fn urlencoding_encode(s: &str) -> (r: String)
    ensures
        r@ == url_encoded(encode_utf8(s@)),
{
    let b = s.as_bytes();
    let mut out = String::new();
    let mut i: usize = 0;
    while i < b.len()
        invariant
            i <= b@.len(),
            b@ == encode_utf8(s@),
            out@ == url_encoded(b@.take(i as int)),
        decreases b@.len() - i,
    {
        let x = b[i];
        proof {
            assert(b@.take(i as int + 1).drop_last() =~= b@.take(i as int));
        }
        if (65 <= x && x <= 90) || (97 <= x && x <= 122) || (48 <= x && x <= 57) || x == 45 || x == 95 || x == 46 || x == 126 {
            push_char(&mut out, x as char);
        } else {
            push_char(&mut out, '%');
            push_char(&mut out, hex_digit_exec(x / 16));
            push_char(&mut out, hex_digit_exec(x % 16));
        }
        i += 1;
    }
    assert(b@.take(b@.len() as int) =~= b@);
    out
}

// ---------------------------------------------------------------------------
// Open VSX results
// ---------------------------------------------------------------------------

/// The `files` of an Open VSX search result.
#[derive(Clone, Debug)]
pub struct OpenVsxFiles {
    pub download: Option<String>,
    pub icon: Option<String>,
}

/// One Open VSX search result.
#[derive(Clone, Debug)]
pub struct OpenVsxItem {
    pub namespace: String,
    pub name: String,
    pub display_name: Option<String>,
    pub description: Option<String>,
    pub version: Option<String>,
    pub download_count: Option<u64>,
    pub url: Option<String>,
    pub files: Option<OpenVsxFiles>,
    pub icon: Option<String>,
}

/// The words that mark an extension that brings syntax highlighting.
pub open spec fn highlight_words() -> Seq<Seq<char>> {
    seq!["grammar"@, "syntax"@, "highlight"@, "textmate"@, "language"@, "tmlanguage"@]
}

/// Whether name and description mention highlighting (ignoring ASCII case).
pub open spec fn highlight_text(name: Seq<char>, description: Seq<char>) -> bool {
    let blob = ascii_lower_seq(name + " "@ + description);
    exists|k: int| 0 <= k < 6 && contains_seq(blob, #[trigger] highlight_words()[k])
}

/// Whether name and description mention highlighting.
pub fn is_highlight_text(name: &str, description: &str) -> (r: bool)
    ensures
        r == highlight_text(name@, description@),
{
    let mut blob = concat(name, " ");
    blob.append(description);
    let low = ascii_lower_vec(&chars_of(blob.as_str()));
    let words: [&str; 6] = ["grammar", "syntax", "highlight", "textmate", "language", "tmlanguage"];
    let ghost hw = highlight_words();
    let mut k: usize = 0;
    while k < 6
        invariant
            k <= 6,
            low@ == ascii_lower_seq(name@ + " "@ + description@),
            hw == highlight_words(),
            words@.len() == 6,
            words@[0]@ == "grammar"@ && words@[1]@ == "syntax"@ && words@[2]@ == "highlight"@
                && words@[3]@ == "textmate"@ && words@[4]@ == "language"@ && words@[5]@ == "tmlanguage"@,
            forall|q: int| 0 <= q < k ==> !contains_seq(low@, #[trigger] hw[q]),
        decreases 6 - k,
    {
        assert(words@[k as int]@ == hw[k as int]);
        if contains_exec(&low, &chars_of(words[k])) {
            return true;
        }
        k += 1;
    }
    false
}

/// `s` without its leading `./`s.
pub open spec fn skip_dot_slashes(s: Seq<char>) -> Seq<char>
    decreases s.len(),
{
    if s.len() >= 2 && s[0] == '.' && s[1] == '/' {
        skip_dot_slashes(s.skip(2))
    } else {
        s
    }
}

/// A web URL.
pub open spec fn is_web_url(s: Seq<char>) -> bool {
    starts_with(s, "https://"@) || starts_with(s, "http://"@)
}

/// The icon of a result: its `files.icon`, else its `icon` (blank ones
/// skipped), trimmed; a relative one is taken from the version's files on
/// Open VSX; only web URLs are kept.
pub open spec fn web_icon(ns: Seq<char>, name: Seq<char>, version: Option<Seq<char>>, raw: Option<Seq<char>>) -> Option<Seq<char>> {
    match raw {
        Some(r0) => {
            let r = trim(r0);
            let u = if is_web_url(r) {
                r
            } else if version matches Some(v) && v.len() > 0 {
                "https://open-vsx.org/api/"@ + ns + "/"@ + name + "/"@ + version->0 + "/file/"@ + skip_dot_slashes(r)
            } else {
                r
            };
            if is_web_url(u) {
                Some(u)
            } else {
                None
            }
        },
        None => None,
    }
}

pub open spec fn nonblank(o: Option<Seq<char>>) -> Option<Seq<char>> {
    match o {
        Some(s) => if trim(s).len() > 0 {
            Some(s)
        } else {
            None
        },
        None => None,
    }
}

pub struct FilesView {
    pub download: Option<Seq<char>>,
    pub icon: Option<Seq<char>>,
}

pub struct ItemView {
    pub namespace: Seq<char>,
    pub name: Seq<char>,
    pub display_name: Option<Seq<char>>,
    pub description: Option<Seq<char>>,
    pub version: Option<Seq<char>>,
    pub download_count: Option<u64>,
    pub url: Option<Seq<char>>,
    pub files: Option<FilesView>,
    pub icon: Option<Seq<char>>,
}

impl View for OpenVsxItem {
    type V = ItemView;

    open spec fn view(&self) -> ItemView {
        ItemView {
            namespace: self.namespace@,
            name: self.name@,
            display_name: opt_text(self.display_name),
            description: opt_text(self.description),
            version: opt_text(self.version),
            download_count: self.download_count,
            url: opt_text(self.url),
            files: match self.files {
                Some(f) => Some(FilesView { download: opt_text(f.download), icon: opt_text(f.icon) }),
                None => None,
            },
            icon: opt_text(self.icon),
        }
    }
}

/// The card of an Open VSX result (none without namespace or name).
pub open spec fn web_card(it: ItemView) -> Option<CardView> {
    if it.namespace.len() == 0 || it.name.len() == 0 {
        None
    } else {
        let id = it.namespace + "."@ + it.name;
        let name = match nonblank(it.display_name) {
            Some(d) => d,
            None => id,
        };
        let description = match nonblank(it.description) {
            Some(d) => d,
            None => "（无描述）"@,
        };
        let highlight = highlight_text(name, description);
        let raw_icon = match it.files {
            Some(f) => match nonblank(f.icon) {
                Some(i) => Some(i),
                None => nonblank(it.icon),
            },
            None => nonblank(it.icon),
        };
        Some(CardView {
            id,
            name,
            description,
            source_label: "Open VSX"@,
            language: if highlight {
                Some("语法高亮"@)
            } else {
                None
            },
            stars: it.download_count,
            mentions: None,
            homepage: match it.url {
                Some(u) => u,
                None => "https://open-vsx.org/extension/"@ + it.namespace + "/"@ + it.name,
            },
            git_url: match it.files {
                Some(f) => match f.download {
                    Some(d) => d,
                    None => Seq::empty(),
                },
                None => Seq::empty(),
            },
            installed: false,
            install_key: "openvsx:"@ + id,
            highlight_priority: highlight,
            version: it.version,
            icon_url: web_icon(it.namespace, it.name, it.version, raw_icon),
        })
    }
}

fn nonblank_exec(o: &Option<String>) -> (r: Option<String>)
    ensures
        opt_text(r) == nonblank(opt_text(*o)),
{
    match o {
        Some(s) => if !crate::text::is_blank(s.as_str()) {
            Some(s.clone())
        } else {
            None
        },
        None => None,
    }
}

fn is_web_url_exec(s: &str) -> (r: bool)
    ensures
        r == is_web_url(s@),
{
    str_starts_with(s, "https://") || str_starts_with(s, "http://")
}

fn skip_dot_slashes_exec(s: &str) -> (r: String)
    ensures
        r@ == skip_dot_slashes(s@),
{
    let v = chars_of(s);
    let mut a: usize = 0;
    assert(v@.skip(0) =~= v@);
    let n = v.len();
    while a < n && n - a >= 2 && v[a] == '.' && v[a + 1] == '/'
        invariant
            a <= v@.len(),
            n == v@.len(),
            skip_dot_slashes(v@) == skip_dot_slashes(v@.skip(a as int)),
        decreases v@.len() - a,
    {
        assert(v@.skip(a as int).skip(2) =~= v@.skip(a + 2));
        a += 2;
    }
    let r = crate::text::string_of_range(&v, a, n);
    assert(r@ =~= v@.skip(a as int));
    r
}

fn web_icon_exec(ns: &str, name: &str, version: &Option<String>, raw: Option<String>) -> (r: Option<String>)
    ensures
        opt_text(r) == web_icon(ns@, name@, opt_text(*version), opt_text(raw)),
{
    let r0 = match raw {
        Some(r) => r,
        None => {
            return None;
        },
    };
    let r = trim_str(r0.as_str());
    let u = if is_web_url_exec(r.as_str()) {
        r
    } else {
        match version {
            Some(v) => if !v.as_str().is_empty() {
                let mut u = concat("https://open-vsx.org/api/", ns);
                u.append("/");
                u.append(name);
                u.append("/");
                u.append(v.as_str());
                u.append("/file/");
                let tail = skip_dot_slashes_exec(r.as_str());
                u.append(tail.as_str());
                u
            } else {
                r
            },
            None => r,
        }
    };
    if is_web_url_exec(u.as_str()) {
        Some(u)
    } else {
        None
    }
}

/// The card of an Open VSX result.
pub fn to_web_card(item: OpenVsxItem) -> (r: Option<PluginCard>)
    ensures
        match r {
            Some(c) => web_card(item@) == Some(c@),
            None => web_card(item@) is None,
        },
{
    if item.namespace.as_str().is_empty() || item.name.as_str().is_empty() {
        return None;
    }
    let ghost iv = item@;
    let mut id = concat(item.namespace.as_str(), ".");
    id.append(item.name.as_str());
    let name = match nonblank_exec(&item.display_name) {
        Some(d) => d,
        None => id.clone(),
    };
    let description = match nonblank_exec(&item.description) {
        Some(d) => d,
        None => "（无描述）".to_string(),
    };
    let highlight = is_highlight_text(name.as_str(), description.as_str());
    let homepage = match &item.url {
        Some(u) => u.clone(),
        None => {
            let mut h = concat("https://open-vsx.org/extension/", item.namespace.as_str());
            h.append("/");
            h.append(item.name.as_str());
            h
        },
    };
    let download = match &item.files {
        Some(f) => match &f.download {
            Some(d) => d.clone(),
            None => String::new(),
        },
        None => String::new(),
    };
    let raw_icon = match &item.files {
        Some(f) => match nonblank_exec(&f.icon) {
            Some(i) => Some(i),
            None => nonblank_exec(&item.icon),
        },
        None => nonblank_exec(&item.icon),
    };
    let icon_url = web_icon_exec(item.namespace.as_str(), item.name.as_str(), &item.version, raw_icon);
    let install_key = concat("openvsx:", id.as_str());
    let card = PluginCard {
        id,
        name,
        description,
        source_label: "Open VSX".to_string(),
        language: if highlight {
            Some("语法高亮".to_string())
        } else {
            None
        },
        stars: item.download_count,
        mentions: None,
        homepage,
        git_url: download,
        installed: false,
        install_key,
        highlight_priority: highlight,
        version: item.version,
        icon_url,
    };
    Some(card)
}

// ---------------------------------------------------------------------------
// Searching Open VSX
// ---------------------------------------------------------------------------

/// The Open VSX category of language extensions.
pub open spec fn languages_category() -> Seq<char> {
    "Programming Languages"@
}

/// One request of a market search.
#[derive(Clone, Debug)]
pub struct OpenVsxQuery {
    pub query: String,
    pub category: Option<String>,
    pub size: u32,
    /// Its results rank first.
    pub priority: bool,
    /// A failure of this request fails the search (else it is skipped).
    pub required: bool,
}

pub struct QueryView {
    pub query: Seq<char>,
    pub category: Option<Seq<char>>,
    pub size: u32,
    pub priority: bool,
    pub required: bool,
}

impl View for OpenVsxQuery {
    type V = QueryView;

    open spec fn view(&self) -> QueryView {
        QueryView {
            query: self.query@,
            category: opt_text(self.category),
            size: self.size,
            priority: self.priority,
            required: self.required,
        }
    }
}

/// The requests of a market search for `q` (trimmed): without a query, the
/// language category first, then two highlighting searches that may fail;
/// with one, the query in the language category (may fail), then the query
/// in all extensions.
pub open spec fn search_plan(q: Seq<char>) -> Seq<QueryView> {
    let t = trim(q);
    if t.len() == 0 {
        seq![
            QueryView { query: Seq::empty(), category: Some(languages_category()), size: 24, priority: true, required: true },
            QueryView { query: "syntax highlight"@, category: None, size: 10, priority: false, required: false },
            QueryView { query: "grammar"@, category: None, size: 10, priority: false, required: false },
        ]
    } else {
        seq![
            QueryView { query: t, category: Some(languages_category()), size: 20, priority: true, required: false },
            QueryView { query: t, category: None, size: 30, priority: false, required: true },
        ]
    }
}

/// The requests of a market search.
pub fn openvsx_search_plan(query: &str) -> (r: Vec<OpenVsxQuery>)
    ensures
        r@.map_values(|x: OpenVsxQuery| x@) == search_plan(query@),
{
    let q = trim_str(query);
    let mut v: Vec<OpenVsxQuery> = Vec::new();
    if q.as_str().is_empty() {
        v.push(OpenVsxQuery { query: String::new(), category: Some("Programming Languages".to_string()), size: 24, priority: true, required: true });
        v.push(OpenVsxQuery { query: "syntax highlight".to_string(), category: None, size: 10, priority: false, required: false });
        v.push(OpenVsxQuery { query: "grammar".to_string(), category: None, size: 10, priority: false, required: false });
    } else {
        v.push(OpenVsxQuery { query: q.clone(), category: Some("Programming Languages".to_string()), size: 20, priority: true, required: false });
        v.push(OpenVsxQuery { query: q, category: None, size: 30, priority: false, required: true });
    }
    assert(v@.map_values(|x: OpenVsxQuery| x@) =~= search_plan(query@));
    v
}

/// The URL of one search request.
pub open spec fn search_url(q: QueryView) -> Seq<char> {
    "https://open-vsx.org/api/-/search?size="@ + decimal(q.size as nat) + "&sortBy=downloadCount&sortOrder=desc"@ + (if trim(
        q.query,
    ).len() > 0 {
        "&query="@ + url_encoded(encode_utf8(q.query))
    } else {
        Seq::empty()
    }) + match q.category {
        Some(c) => "&category="@ + url_encoded(encode_utf8(c)),
        None => Seq::empty(),
    }
}

/// The URL of one search request.
pub fn openvsx_search_url(q: &OpenVsxQuery) -> (r: String)
    ensures
        r@ == search_url(q@),
{
    let mut url = "https://open-vsx.org/api/-/search?size=".to_string();
    push_decimal(&mut url, q.size as u64);
    url.append("&sortBy=downloadCount&sortOrder=desc");
    let ghost base = url@;
    if !crate::text::is_blank(q.query.as_str()) {
        url.append("&query=");
        let e = urlencoding_encode(q.query.as_str());
        url.append(e.as_str());
    }
    let ghost mid = url@;
    match &q.category {
        Some(c) => {
            url.append("&category=");
            let e = urlencoding_encode(c.as_str());
            url.append(e.as_str());
        },
        None => {},
    }
    proof {
        assert(mid =~= base + (if trim(q@.query).len() > 0 {
            "&query="@ + url_encoded(encode_utf8(q@.query))
        } else {
            Seq::empty()
        }));
        assert(url@ =~= mid + match q@.category {
            Some(c) => "&category="@ + url_encoded(encode_utf8(c)),
            None => Seq::empty(),
        });
    }
    url
}

/// The position of the card with id `id`, if any.
pub open spec fn id_pos(cs: Seq<CardView>, id: Seq<char>) -> Option<int>
    decreases cs.len(),
{
    if cs.len() == 0 {
        None
    } else {
        match id_pos(cs.drop_last(), id) {
            Some(i) => Some(i),
            None => if cs.last().id == id {
                Some(cs.len() - 1)
            } else {
                None
            },
        }
    }
}

pub proof fn lemma_id_pos(cs: Seq<CardView>, id: Seq<char>)
    ensures
        id_pos(cs, id) matches Some(i) ==> 0 <= i < cs.len() && cs[i].id == id && forall|j: int|
            0 <= j < i ==> (#[trigger] cs[j]).id != id,
        id_pos(cs, id) is None ==> forall|j: int| 0 <= j < cs.len() ==> (#[trigger] cs[j]).id != id,
    decreases cs.len(),
{
    if cs.len() > 0 {
        lemma_id_pos(cs.drop_last(), id);
        assert forall|j: int| 0 <= j < cs.len() - 1 implies cs[j] == cs.drop_last()[j] by {}
    }
}

fn find_id(cards: &Vec<PluginCard>, id: &str) -> (r: Option<usize>)
    ensures
        match r {
            Some(i) => id_pos(cards_view(cards@), id@) == Some(i as int) && i < cards@.len(),
            None => id_pos(cards_view(cards@), id@) is None,
        },
{
    let ghost cv = cards_view(cards@);
    let mut i: usize = 0;
    while i < cards.len()
        invariant
            i <= cards@.len(),
            cv == cards_view(cards@),
            forall|j: int| 0 <= j < i ==> (#[trigger] cv[j]).id != id@,
        decreases cards.len() - i,
    {
        assert(cv[i as int] == cards@[i as int]@);
        if str_eq(cards[i].id.as_str(), id) {
            proof {
                lemma_id_pos(cv, id@);
                match id_pos(cv, id@) {
                    Some(j) => {
                        if j > i {
                            assert(cv[i as int].id == id@);
                        }
                    },
                    None => {
                        assert(cv[i as int].id == id@);
                    },
                }
            }
            return Some(i);
        }
        i += 1;
    }
    proof {
        lemma_id_pos(cv, id@);
        if let Some(j) = id_pos(cv, id@) {
            assert(cv[j].id == id@);
        }
    }
    None
}

/// The cards after a result card came in: a priority card (marked so)
/// replaces the card with its id; another only joins when its id is new.
pub open spec fn merged(cs: Seq<CardView>, c: CardView, priority: bool) -> Seq<CardView> {
    if priority {
        let c2 = CardView { highlight_priority: true, ..c };
        match id_pos(cs, c.id) {
            Some(i) => cs.update(i, c2),
            None => cs.push(c2),
        }
    } else {
        match id_pos(cs, c.id) {
            Some(_) => cs,
            None => cs.push(c),
        }
    }
}

/// The cards after all results of one request came in.
pub open spec fn merged_all(cs: Seq<CardView>, items: Seq<ItemView>, priority: bool) -> Seq<CardView>
    decreases items.len(),
{
    if items.len() == 0 {
        cs
    } else {
        let before = merged_all(cs, items.drop_last(), priority);
        match web_card(items.last()) {
            Some(c) => merged(before, c, priority),
            None => before,
        }
    }
}

/// Takes the results of one request into the cards found so far.
pub fn absorb_results(cards: &mut Vec<PluginCard>, items: Vec<OpenVsxItem>, priority: bool)
    ensures
        cards_view(final(cards)@) == merged_all(cards_view(old(cards)@), items@.map_values(|x: OpenVsxItem| x@), priority),
{
    let ghost start = cards_view(cards@);
    let ghost iv = items@.map_values(|x: OpenVsxItem| x@);
    let ghost orig = items@;
    let mut items = items;
    let n = items.len();
    let mut k: usize = 0;
    while k < n
        invariant
            k <= n == items@.len() == orig.len(),
            iv == orig.map_values(|x: OpenVsxItem| x@),
            forall|q: int| k <= q < n ==> items@[q] == orig[q],
            cards_view(cards@) == merged_all(start, iv.take(k as int), priority),
        decreases n - k,
    {
        proof {
            assert(iv.take(k as int + 1).drop_last() =~= iv.take(k as int));
        }
        let item = items.remove(k);
        items.insert(k, OpenVsxItem {
            namespace: String::new(),
            name: String::new(),
            display_name: None,
            description: None,
            version: None,
            download_count: None,
            url: None,
            files: None,
            icon: None,
        });
        assert(item@ == iv[k as int]);
        match to_web_card(item) {
            Some(c) => {
                let ghost before = cards_view(cards@);
                let found = find_id(cards, c.id.as_str());
                if priority {
                    let mut c2 = c;
                    c2.highlight_priority = true;
                    match found {
                        Some(i) => {
                            let _ = cards.remove(i);
                            cards.insert(i, c2);
                            assert(cards_view(cards@) =~= before.update(i as int, cards@[i as int]@));
                        },
                        None => {
                            cards.push(c2);
                            assert(cards_view(cards@) =~= before.push(cards@[cards@.len() - 1]@));
                        },
                    }
                } else {
                    match found {
                        Some(_) => {},
                        None => {
                            cards.push(c);
                            assert(cards_view(cards@) =~= before.push(cards@[cards@.len() - 1]@));
                        },
                    }
                }
            },
            None => {},
        }
        k += 1;
    }
    assert(iv.take(n as int) =~= iv);
}

/// `a` ranks before `b`: highlighting extensions first, then more downloads.
pub open spec fn ranks_before(a: CardView, b: CardView) -> bool {
    (a.highlight_priority && !b.highlight_priority) || (a.highlight_priority == b.highlight_priority
        && stars_or_zero(a) > stars_or_zero(b))
}

pub open spec fn stars_or_zero(c: CardView) -> u64 {
    match c.stars {
        Some(n) => n,
        None => 0,
    }
}

/// `sorted` with `c` put after every card that it does not rank before.
pub open spec fn insert_ranked(sorted: Seq<CardView>, c: CardView) -> Seq<CardView>
    decreases sorted.len(),
{
    if sorted.len() == 0 {
        seq![c]
    } else if ranks_before(c, sorted.last()) {
        insert_ranked(sorted.drop_last(), c).push(sorted.last())
    } else {
        sorted.push(c)
    }
}

/// The cards in rank order, ties in their order in `cs`.
pub open spec fn ranked(cs: Seq<CardView>) -> Seq<CardView>
    decreases cs.len(),
{
    if cs.len() == 0 {
        Seq::empty()
    } else {
        insert_ranked(ranked(cs.drop_last()), cs.last())
    }
}

/// Inserting at the position found from the end.
proof fn lemma_insert_ranked_at(s: Seq<CardView>, c: CardView, pos: int)
    requires
        0 <= pos <= s.len(),
        forall|j: int| pos <= j < s.len() ==> ranks_before(c, #[trigger] s[j]),
        pos == 0 || !ranks_before(c, s[pos - 1]),
    ensures
        insert_ranked(s, c) == s.take(pos).push(c) + s.skip(pos),
    decreases s.len(),
{
    if s.len() == 0 {
        assert(s.take(0).push(c) + s.skip(0) =~= seq![c]);
    } else if pos == s.len() {
        assert(s.take(pos).push(c) + s.skip(pos) =~= s.push(c));
    } else {
        assert(ranks_before(c, s[s.len() - 1]));
        let init = s.drop_last();
        assert forall|j: int| pos <= j < init.len() implies ranks_before(c, #[trigger] init[j]) by {
            assert(init[j] == s[j]);
        }
        if pos > 0 {
            assert(init[pos - 1] == s[pos - 1]);
        }
        lemma_insert_ranked_at(init, c, pos);
        assert(init.take(pos).push(c) + init.skip(pos) + seq![s.last()] =~= s.take(pos).push(c) + s.skip(pos));
    }
}

/// The cards in rank order: highlighting extensions first, then by
/// downloads, ties kept in the order they were found.
pub fn sort_cards(cards: Vec<PluginCard>) -> (r: Vec<PluginCard>)
    ensures
        cards_view(r@) == ranked(cards_view(cards@)),
{
    let ghost cv = cards_view(cards@);
    let ghost orig = cards@;
    let mut cards = cards;
    let mut out: Vec<PluginCard> = Vec::new();
    let n = cards.len();
    let mut k: usize = 0;
    while k < n
        invariant
            k <= n == cards@.len() == orig.len(),
            cv == cards_view(orig),
            forall|q: int| k <= q < n ==> cards@[q] == orig[q],
            cards_view(out@) == ranked(cv.take(k as int)),
        decreases n - k,
    {
        proof {
            assert(cv.take(k as int + 1).drop_last() =~= cv.take(k as int));
        }
        let c = cards.remove(k);
        cards.insert(k, PluginCard {
            id: String::new(),
            name: String::new(),
            description: String::new(),
            source_label: String::new(),
            language: None,
            stars: None,
            mentions: None,
            homepage: String::new(),
            git_url: String::new(),
            installed: false,
            install_key: String::new(),
            highlight_priority: false,
            version: None,
            icon_url: None,
        });
        assert(c@ == cv[k as int]);
        let ghost sorted = cards_view(out@);
        let mut pos = out.len();
        while pos > 0 && ranks_before_exec(&c, &out[pos - 1])
            invariant
                pos <= out@.len(),
                sorted == cards_view(out@),
                forall|j: int| pos <= j < out@.len() ==> ranks_before(c@, #[trigger] sorted[j]),
            decreases pos,
        {
            assert(sorted[pos - 1] == out@[pos - 1]@);
            pos -= 1;
        }
        proof {
            if pos > 0 {
                assert(sorted[pos - 1] == out@[pos - 1]@);
            }
            lemma_insert_ranked_at(sorted, c@, pos as int);
        }
        out.insert(pos, c);
        assert(cards_view(out@) =~= sorted.take(pos as int).push(c@) + sorted.skip(pos as int));
        k += 1;
    }
    assert(cv.take(n as int) =~= cv);
    out
}

fn ranks_before_exec(a: &PluginCard, b: &PluginCard) -> (r: bool)
    ensures
        r == ranks_before(a@, b@),
{
    let sa = match a.stars {
        Some(n) => n,
        None => 0,
    };
    let sb = match b.stars {
        Some(n) => n,
        None => 0,
    };
    (a.highlight_priority && !b.highlight_priority) || (a.highlight_priority == b.highlight_priority && sa > sb)
}

// ---------------------------------------------------------------------------
// Smart UI scans
// ---------------------------------------------------------------------------

/// The notices after scanning for missing smart UIs: how many were cached,
/// and the first failure (with the count when there were several).
pub fn smart_ui_scan_report(ok: usize, errors: &Vec<(String, String)>) -> (r: (Option<String>, Option<String>))
    ensures
        ok > 0 <==> r.0 is Some,
        r.0 matches Some(m) ==> m@ == "已为 "@ + decimal(ok as nat) + " 个应用缓存智能 UI"@,
        errors@.len() == 0 <==> r.1 is None,
        errors@.len() == 1 ==> (r.1 matches Some(m) && m@ == "智能 UI 生成失败："@ + errors@[0].1@),
        errors@.len() > 1 ==> (r.1 matches Some(m) && m@ == "智能 UI："@ + decimal(ok as nat) + " 成功，"@
            + decimal(errors@.len() as nat) + " 失败（例如："@ + errors@[0].1@ + ")"@),
{
    let success = if ok > 0 {
        let mut m = "已为 ".to_string();
        push_decimal(&mut m, ok as u64);
        m.append(" 个应用缓存智能 UI");
        Some(m)
    } else {
        None
    };
    let failure = if errors.len() == 0 {
        None
    } else if errors.len() == 1 {
        Some(concat("智能 UI 生成失败：", errors[0].1.as_str()))
    } else {
        let mut m = "智能 UI：".to_string();
        push_decimal(&mut m, ok as u64);
        m.append(" 成功，");
        push_decimal(&mut m, errors.len() as u64);
        m.append(" 失败（例如：");
        m.append(errors[0].1.as_str());
        m.append(")");
        Some(m)
    };
    (success, failure)
}

// ---------------------------------------------------------------------------
// Laws
// ---------------------------------------------------------------------------

/// Ranked cards are in rank order: no card ranks before one placed ahead of
/// it.
pub proof fn law_ranked_in_order(cs: Seq<CardView>)
    ensures
        forall|i: int, j: int| 0 <= i < j < ranked(cs).len() ==> !ranks_before(#[trigger] ranked(cs)[j], #[trigger] ranked(cs)[i]),
        ranked(cs).len() == cs.len(),
    decreases cs.len(),
{
    if cs.len() > 0 {
        law_ranked_in_order(cs.drop_last());
        lemma_insert_keeps_order(ranked(cs.drop_last()), cs.last());
    }
}

proof fn lemma_insert_keeps_order(s: Seq<CardView>, c: CardView)
    requires
        forall|i: int, j: int| 0 <= i < j < s.len() ==> !ranks_before(#[trigger] s[j], #[trigger] s[i]),
    ensures
        forall|i: int, j: int| 0 <= i < j < insert_ranked(s, c).len() ==> !ranks_before(
            #[trigger] insert_ranked(s, c)[j],
            #[trigger] insert_ranked(s, c)[i],
        ),
        insert_ranked(s, c).len() == s.len() + 1,
        forall|k: int| 0 <= k < insert_ranked(s, c).len() ==> (#[trigger] insert_ranked(s, c)[k] == c || s.contains(insert_ranked(s, c)[k])),
    decreases s.len(),
{
    if s.len() > 0 {
        let init = s.drop_last();
        if ranks_before(c, s.last()) {
            assert forall|i: int, j: int| 0 <= i < j < init.len() implies !ranks_before(#[trigger] init[j], #[trigger] init[i]) by {
                assert(init[i] == s[i] && init[j] == s[j]);
            }
            lemma_insert_keeps_order(init, c);
            let t = insert_ranked(init, c);
            let r = t.push(s.last());
            assert forall|k: int| 0 <= k < t.len() implies !ranks_before(s.last(), #[trigger] t[k]) by {
                if t[k] != c {
                    let q = choose|q: int| 0 <= q < init.len() && init[q] == t[k];
                    assert(s[q] == init[q]);
                    assert(!ranks_before(s[s.len() - 1], s[q]));
                }
            }
            assert forall|k: int| 0 <= k < r.len() implies (#[trigger] r[k] == c || s.contains(r[k])) by {
                if k < t.len() && t[k] != c {
                    let q = choose|q: int| 0 <= q < init.len() && init[q] == t[k];
                    assert(s[q] == init[q]);
                } else if k == t.len() {
                    assert(s[s.len() - 1] == r[k]);
                }
            }
        } else {
            let r = s.push(c);
            assert forall|i: int, j: int| 0 <= i < j < r.len() implies !ranks_before(#[trigger] r[j], #[trigger] r[i]) by {
                if j == s.len() {
                    assert(!ranks_before(c, s[s.len() - 1]));
                    if i < s.len() - 1 {
                        assert(!ranks_before(s[s.len() - 1], s[i]));
                    }
                }
            }
            assert forall|k: int| 0 <= k < r.len() implies (#[trigger] r[k] == c || s.contains(r[k])) by {
                if k < s.len() {
                    assert(s[k] == r[k]);
                }
            }
        }
    }
}

/// A priority result is found, marked, among the merged cards; any result
/// is found by its id.
pub proof fn law_merge_finds(cs: Seq<CardView>, c: CardView, priority: bool)
    ensures
        id_pos(merged(cs, c, priority), c.id) is Some,
        priority ==> merged(cs, c, priority)[id_pos(merged(cs, c, priority), c.id)->0] == (CardView {
            highlight_priority: true,
            ..c
        }),
{
    lemma_id_pos(cs, c.id);
    let m = merged(cs, c, priority);
    lemma_id_pos(m, c.id);
    match id_pos(cs, c.id) {
        Some(i) => {
            if priority {
                assert(m[i].id == c.id);
                if let Some(j) = id_pos(m, c.id) {
                    if j < i {
                        assert(m[j] == cs[j]);
                    }
                }
            } else {
                assert(m[i].id == c.id);
            }
        },
        None => {
            let j = cs.len() as int;
            assert(m[j].id == c.id);
            if let Some(q) = id_pos(m, c.id) {
                if q < j {
                    assert(m[q] == cs[q]);
                }
            }
        },
    }
}

// ---------------------------------------------------------------------------
// The installed list and the search results
// ---------------------------------------------------------------------------

/// A card with the installed flag of its catalogue entry, when it has one.
pub open spec fn with_catalog_flag(c: CardView, catalog: Seq<CardView>) -> CardView {
    match key_pos(catalog, c.install_key) {
        Some(i) => CardView { installed: catalog[i].installed, ..c },
        None => c,
    }
}

/// Gives each search result the installed flag of its catalogue entry.
pub fn refresh_installed_flags(cards: &mut Vec<PluginCard>, catalog: &Vec<PluginCard>)
    ensures
        cards_view(final(cards)@) == cards_view(old(cards)@).map_values(
            |c: CardView| with_catalog_flag(c, cards_view(catalog@)),
        ),
{
    let ghost before = cards_view(cards@);
    let ghost cat = cards_view(catalog@);
    let mut out: Vec<PluginCard> = Vec::new();
    let mut i: usize = 0;
    while i < cards.len()
        invariant
            i <= cards@.len(),
            before == cards_view(cards@),
            cat == cards_view(catalog@),
            cards_view(out@) == before.take(i as int).map_values(|c: CardView| with_catalog_flag(c, cat)),
        decreases cards.len() - i,
    {
        let mut c = copy_card(&cards[i]);
        assert(c@ == before[i as int]);
        match find_card(catalog, cards[i].install_key.as_str()) {
            Some(k) => {
                assert(cat[k as int] == catalog@[k as int]@);
                c.installed = catalog[k].installed;
            },
            None => {},
        }
        let ghost prev = out@;
        out.push(c);
        assert(cards_view(out@) =~= cards_view(prev).push(c@));
        assert(before.take(i + 1).map_values(|c: CardView| with_catalog_flag(c, cat)) =~= before.take(
            i as int,
        ).map_values(|c: CardView| with_catalog_flag(c, cat)).push(with_catalog_flag(before[i as int], cat)));
        i += 1;
    }
    assert(before.take(before.len() as int) =~= before);
    *cards = out;
}

/// Whether a card passes the filter `q` (already lowercased) of the
/// installed list: its name, description, id or language holds `q`, ignoring
/// case.
pub open spec fn card_passes(c: CardView, q: Seq<char>) -> bool {
    q.len() == 0 || contains_seq(crate::search::lowercase(c.name), q) || contains_seq(
        crate::search::lowercase(c.description),
        q,
    ) || contains_seq(crate::search::lowercase(c.id), q) || (c.language matches Some(l) && contains_seq(
        crate::search::lowercase(l),
        q,
    ))
}

/// The filter of the installed list as a predicate.
pub open spec fn passes(q: Seq<char>) -> spec_fn(CardView) -> bool {
    |c: CardView| card_passes(c, q)
}

fn lower_contains(s: &str, q: &str) -> (r: bool)
    ensures
        r == contains_seq(crate::search::lowercase(s@), q@),
{
    let l = crate::search::str_to_lowercase(s);
    crate::text::str_contains(l.as_str(), q)
}

/// The installed extensions that match the filter typed above the list;
/// every card when the filter is blank.
pub fn filter_cards(cards: &Vec<PluginCard>, query: &str) -> (r: Vec<PluginCard>)
    ensures
        cards_view(r@) == cards_view(cards@).filter(passes(crate::search::lowercase(trim(query@)))),
        trim(query@).len() == 0 ==> cards_view(r@) == cards_view(cards@),
{
    let t = trim_str(query);
    let q = crate::search::str_to_lowercase(t.as_str());
    let ghost qv = q@;
    let ghost cv = cards_view(cards@);
    let mut out: Vec<PluginCard> = Vec::new();
    let mut i: usize = 0;
    while i < cards.len()
        invariant
            i <= cards@.len(),
            cv == cards_view(cards@),
            qv == q@,
            cards_view(out@) == cv.take(i as int).filter(passes(qv)),
        decreases cards.len() - i,
    {
        proof {
            assert(cv.take(i + 1) =~= cv.take(i as int).push(cv[i as int]));
            cv.take(i as int).lemma_filter_push(cv[i as int], passes(qv));
        }
        let c = &cards[i];
        assert(cv[i as int] == c@);
        let keep = q.as_str().is_empty() || lower_contains(c.name.as_str(), q.as_str())
            || lower_contains(c.description.as_str(), q.as_str()) || lower_contains(
            c.id.as_str(),
            q.as_str(),
        ) || match &c.language {
            Some(l) => lower_contains(l.as_str(), q.as_str()),
            None => false,
        };
        if keep {
            let d = copy_card(c);
            let ghost prev = out@;
            out.push(d);
            assert(cards_view(out@) =~= cards_view(prev).push(d@));
        }
        i += 1;
    }
    assert(cv.take(cv.len() as int) =~= cv);
    proof {
        if trim(query@).len() == 0 {
            assert(qv.len() == 0);
            lemma_filter_keeps_all(cv, passes(qv));
        }
    }
    out
}

/// A filter that keeps every element changes nothing.
proof fn lemma_filter_keeps_all(cs: Seq<CardView>, p: spec_fn(CardView) -> bool)
    requires
        forall|k: int| 0 <= k < cs.len() ==> p(#[trigger] cs[k]),
    ensures
        cs.filter(p) == cs,
    decreases cs.len(),
{
    reveal(Seq::filter);
    if cs.len() > 0 {
        lemma_filter_keeps_all(cs.drop_last(), p);
        assert(p(cs[cs.len() - 1]));
        assert(cs.drop_last().push(cs.last()) =~= cs);
    }
}

// ---------------------------------------------------------------------------
// Replies of the market
// ---------------------------------------------------------------------------

/// How one request to the market failed.
pub enum OpenVsxFailure {
    /// The request could not be sent or answered; the transport's message.
    Transport(String),
    /// The answer's HTTP status was not a success.
    Status(u16),
    /// The answer's body was not the expected JSON; the parser's message.
    Unreadable(String),
}

/// Whether an HTTP status is a success (2xx).
pub open spec fn is_success(status: u16) -> bool {
    200 <= status < 300
}

/// The message shown for a failed request.
pub open spec fn failure_message(f: OpenVsxFailure) -> Seq<char> {
    match f {
        OpenVsxFailure::Transport(e) => "Open VSX 搜索失败："@ + e@,
        OpenVsxFailure::Status(s) => "Open VSX 搜索失败（HTTP "@ + decimal(s as nat) + "）"@,
        OpenVsxFailure::Unreadable(e) => "Open VSX 结果解析失败："@ + e@,
    }
}

/// The message shown for a failed request.
pub fn openvsx_failure_message(f: &OpenVsxFailure) -> (r: String)
    ensures
        r@ == failure_message(*f),
{
    match f {
        OpenVsxFailure::Transport(e) => concat("Open VSX 搜索失败：", e.as_str()),
        OpenVsxFailure::Status(s) => {
            let mut m = "Open VSX 搜索失败（HTTP ".to_string();
            push_decimal(&mut m, *s as u64);
            m.append("）");
            m
        },
        OpenVsxFailure::Unreadable(e) => concat("Open VSX 结果解析失败：", e.as_str()),
    }
}

/// The failure an answer with `status` makes, or `None` when its body is to
/// be read.
pub fn openvsx_status_failure(status: u16) -> (r: Option<OpenVsxFailure>)
    ensures
        is_success(status) <==> r is None,
        !is_success(status) ==> r == Some(OpenVsxFailure::Status(status)),
{
    if 200 <= status && status < 300 {
        None
    } else {
        Some(OpenVsxFailure::Status(status))
    }
}

/// Takes the reply to request `q` into the cards found so far. Items are
/// merged as [`absorb_results`] does; a failure leaves the cards as they
/// were, and returns the message that ends the search when `q` is required
/// (`None` when it may be skipped).
pub fn absorb_reply(
    cards: &mut Vec<PluginCard>,
    q: &OpenVsxQuery,
    reply: Result<Vec<OpenVsxItem>, OpenVsxFailure>,
) -> (r: Option<String>)
    ensures
        reply is Ok ==> r is None && cards_view(final(cards)@) == merged_all(
            cards_view(old(cards)@),
            reply->Ok_0@.map_values(|x: OpenVsxItem| x@),
            q.priority,
        ),
        reply is Err ==> final(cards)@ == old(cards)@,
        reply is Err && !q.required ==> r is None,
        reply is Err && q.required ==> (r matches Some(m) && m@ == failure_message(reply->Err_0)),
{
    match reply {
        Ok(items) => {
            absorb_results(cards, items, q.priority);
            None
        },
        Err(f) => {
            if q.required {
                Some(openvsx_failure_message(&f))
            } else {
                None
            }
        },
    }
}

} // verus!
