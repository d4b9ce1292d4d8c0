//! The LLM credential settings: provider names, key masking, whether a base
//! URL points at this machine or a private network, and the messages shown
//! for the core's error codes.
use vstd::prelude::*;
use crate::browser::{after_scheme, after_scheme_exec, host_stops};
use crate::text::{
    ascii_lower_seq, ascii_lower_vec, chars_of, concat, contains_exec, contains_seq, count_char,
    count_char_exec, eq_ignore_ascii_case, eq_ignore_ascii_case_exec, first_index_of,
    first_index_of_exec, index_of_any, index_of_any_exec, last_index_of, last_index_of_exec,
    lemma_index_of_any_from, lemma_last_index_of, lemma_split_char_len, parse_unsigned,
    parse_unsigned_exec, push_chars, split_char, split_char_exec, str_eq, string_of,
    string_of_range, strip_set, strip_set_exec, strip_start_set, strip_start_set_exec, trim,
    trim_str, views, is_ws, trim_start, lemma_trim_idempotent,
};

verus! {

/// The stored key of a credential saved without one (the core refuses an
/// empty key); shown as "未填写".
pub const EMPTY_API_KEY_SENTINEL: &'static str = "__pusa_no_key__";

/// The API family a credential speaks.
#[derive(Clone, Copy, Debug, PartialEq, Eq, Structural)]
pub enum LlmApiProvider {
    Openai,
    Anthropic,
}

/// A saved credential as the core lists it.
#[derive(Clone, Debug)]
pub struct LlmCredentialDto {
    pub id: String,
    pub provider: LlmApiProvider,
    pub api_key: String,
    pub openai_v1_base: String,
    pub label: String,
}

/// What the settings page sends to create or update a credential.
#[derive(Clone, Debug)]
pub struct LlmCredentialUpsertBody {
    pub id: Option<String>,
    pub provider: LlmApiProvider,
    pub api_key: String,
    pub openai_v1_base: String,
    pub label: String,
}

/// What to do with the name field of a credential card when editing ends.
#[derive(Clone, Debug)]
pub enum NameCommit {
    /// The field was left blank: show this name again.
    Reset(String),
    /// Store this new name.
    Rename(String),
    /// The name did not change.
    Keep,
}

// ---------------------------------------------------------------------------
// Base URL and host
// ---------------------------------------------------------------------------

/// The host named by a base URL (`http://host:port/path`, `[IPv6]`, user
/// info and a missing scheme are understood), or `None`.
pub open spec fn host_of_base(base: Seq<char>) -> Option<Seq<char>> {
    let s = trim(base);
    if s.len() == 0 {
        None
    } else {
        let rest = strip_start_set(after_scheme(s), seq!['/']);
        let authority = rest.take(index_of_any(rest, host_stops()));
        if authority.len() == 0 {
            None
        } else {
            let hostport = match last_index_of(authority, '@') {
                Some(at) => authority.skip(at + 1),
                None => authority,
            };
            if hostport.len() > 0 && hostport[0] == '[' {
                let inner = hostport.drop_first();
                match first_index_of(inner, ']') {
                    Some(end) => Some(inner.take(end)),
                    None => None,
                }
            } else if count_char(hostport, ':') > 1 {
                Some(hostport)
            } else {
                match first_index_of(hostport, ':') {
                    Some(i) => Some(hostport.take(i)),
                    None => Some(hostport),
                }
            }
        }
    }
}

/// The four octets of a dotted IPv4 address, each as `u8::from_str` reads it.
pub open spec fn ipv4_of(host: Seq<char>) -> Option<Seq<u8>> {
    let parts = split_char(host, '.');
    if parts.len() == 4 && (forall|i: int| 0 <= i < 4 ==> #[trigger] parse_unsigned(parts[i], 255) is Some) {
        Some(Seq::new(4, |i: int| parse_unsigned(parts[i], 255)->0 as u8))
    } else {
        None
    }
}

/// Loopback (`127/8`) or private (`10/8`, `192.168/16`, `172.16/12`).
pub open spec fn private_ipv4(a: u8, b: u8) -> bool {
    a == 127 || a == 10 || (a == 192 && b == 168) || (a == 172 && 16 <= b <= 31)
}

/// `host` (trimmed, brackets dropped) is this machine or a private address.
pub open spec fn private_host(host: Seq<char>) -> bool {
    let h = strip_set(trim(host), seq!['[', ']']);
    ||| eq_ignore_ascii_case(h, "localhost"@)
    ||| h == "::1"@
    ||| eq_ignore_ascii_case(h, "0:0:0:0:0:0:0:1"@)
    ||| (ipv4_of(h) matches Some(ip) && private_ipv4(ip[0], ip[1]))
}

/// The base URL points at this machine or a private network.
pub open spec fn local_base(base: Seq<char>) -> bool {
    host_of_base(base) matches Some(h) && private_host(h)
}

/// The host of a base URL.
pub fn host_from_openai_base(base: &str) -> (r: Option<String>)
    ensures
        r matches Some(h) ==> host_of_base(base@) == Some(h@),
        r is None ==> host_of_base(base@) is None,
{
    let s = chars_of(trim_str(base).as_str());
    if s.len() == 0 {
        return None;
    }
    let after = after_scheme_exec(&s);
    let mut slash: Vec<char> = Vec::new();
    slash.push('/');
    assert(slash@ =~= seq!['/']);
    let rest = strip_start_set_exec(&after, &slash);
    let mut stops: Vec<char> = Vec::new();
    stops.push('/');
    stops.push('?');
    stops.push('#');
    assert(stops@ =~= host_stops());
    let end = index_of_any_exec(&rest, &stops, 0);
    proof {
        lemma_index_of_any_from(rest@, stops@, 0);
    }
    let authority = chars_of(string_of_range(&rest, 0, end).as_str());
    assert(authority@ =~= rest@.take(end as int));
    if authority.len() == 0 {
        return None;
    }
    proof {
        lemma_last_index_of(authority@, '@');
    }
    let hostport = match last_index_of_exec(&authority, '@') {
        Some(at) => {
            let n = authority.len();
            let h = chars_of(string_of_range(&authority, at + 1, n).as_str());
            assert(h@ =~= authority@.skip(at + 1));
            h
        },
        None => authority,
    };
    if hostport.len() > 0 && hostport[0] == '[' {
        let n = hostport.len();
        let inner = chars_of(string_of_range(&hostport, 1, n).as_str());
        assert(inner@ =~= hostport@.drop_first());
        match first_index_of_exec(&inner, ']') {
            Some(e) => {
                let h = string_of_range(&inner, 0, e);
                assert(h@ =~= inner@.take(e as int));
                Some(h)
            },
            None => None,
        }
    } else if count_char_exec(&hostport, ':') > 1 {
        Some(string_of(&hostport))
    } else {
        match first_index_of_exec(&hostport, ':') {
            Some(i) => {
                let h = string_of_range(&hostport, 0, i);
                assert(h@ =~= hostport@.take(i as int));
                Some(h)
            },
            None => Some(string_of(&hostport)),
        }
    }
}

/// A dotted IPv4 address, or `None`.
pub fn parse_ipv4(host: &str) -> (r: Option<[u8; 4]>)
    ensures
        r matches Some(ip) ==> ipv4_of(host@) == Some(ip@),
        r is None ==> ipv4_of(host@) is None,
{
    let v = chars_of(host);
    let parts = split_char_exec(&v, '.');
    proof {
        lemma_split_char_len(v@, '.');
        assert(views(parts@).len() == parts@.len());
    }
    if parts.len() != 4 {
        return None;
    }
    let mut out: [u8; 4] = [0u8; 4];
    let mut i: usize = 0;
    while i < 4
        invariant
            i <= 4,
            v@ == host@,
            parts@.len() == 4,
            views(parts@) == split_char(v@, '.'),
            out@.len() == 4,
            forall|k: int| 0 <= k < i ==> (#[trigger] parse_unsigned(split_char(v@, '.')[k], 255)
                matches Some(n) && out@[k] == n as u8),
        decreases 4 - i,
    {
        assert(views(parts@)[i as int] == parts@[i as int]@);
        match parse_unsigned_exec(&parts[i], 255) {
            Some(n) => {
                out[i] = n as u8;
            },
            None => {
                proof {
                    let parts_s = split_char(v@, '.');
                    assert(parse_unsigned(parts_s[i as int], 255) is None);
                }
                return None;
            },
        }
        i += 1;
    }
    proof {
        let parts_s = split_char(v@, '.');
        assert forall|k: int| 0 <= k < 4 implies #[trigger] parse_unsigned(parts_s[k], 255) is Some by {}
        assert(out@ =~= Seq::new(4, |k: int| parse_unsigned(parts_s[k], 255)->0 as u8));
    }
    Some(out)
}

/// Loopback or private IPv4 address.
pub fn is_loopback_or_private_ipv4(ip: [u8; 4]) -> (r: bool)
    ensures
        r == private_ipv4(ip@[0], ip@[1]),
{
    let a = ip[0];
    let b = ip[1];
    a == 127 || a == 10 || (a == 192 && b == 168) || (a == 172 && 16 <= b && b <= 31)
}

/// `host` is `localhost`, the IPv6 loopback or a loopback / private IPv4
/// address.
pub fn is_loopback_or_private_host(host: &str) -> (r: bool)
    ensures
        r == private_host(host@),
{
    let t = chars_of(trim_str(host).as_str());
    let mut brackets: Vec<char> = Vec::new();
    brackets.push('[');
    brackets.push(']');
    assert(brackets@ =~= seq!['[', ']']);
    let h = strip_set_exec(&t, &brackets);
    let hs = string_of(&h);
    if eq_ignore_ascii_case_exec(&h, &chars_of("localhost")) {
        return true;
    }
    if str_eq(hs.as_str(), "::1") || eq_ignore_ascii_case_exec(&h, &chars_of("0:0:0:0:0:0:0:1")) {
        return true;
    }
    match parse_ipv4(hs.as_str()) {
        Some(ip) => is_loopback_or_private_ipv4(ip),
        None => false,
    }
}

/// The base URL points at this machine or a private network, where an empty
/// API key is to be expected.
pub fn is_local_or_private_openai_base(base: &str) -> (r: bool)
    ensures
        r == local_base(base@),
{
    match host_from_openai_base(base) {
        Some(h) => is_loopback_or_private_host(h.as_str()),
        None => false,
    }
}

// ---------------------------------------------------------------------------
// API keys
// ---------------------------------------------------------------------------

/// No key was given: blank, or the stand-in stored for a missing key.
pub open spec fn unspecified_key(key: Seq<char>) -> bool {
    trim(key).len() == 0 || trim(key) == EMPTY_API_KEY_SENTINEL@
}

/// The key as stored: trimmed, with the stand-in for a missing key.
pub open spec fn stored_key(raw: Seq<char>) -> Seq<char> {
    if trim(raw).len() == 0 {
        EMPTY_API_KEY_SENTINEL@
    } else {
        trim(raw)
    }
}

/// The key as a card shows it: "未填写" when missing, bullets when short,
/// else its first and last four characters.
pub open spec fn masked_key(key: Seq<char>) -> Seq<char> {
    if unspecified_key(key) {
        "未填写"@
    } else {
        let t = trim(key);
        if t.len() <= 8 {
            "••••"@
        } else {
            t.take(4) + "…"@ + t.skip(t.len() - 4)
        }
    }
}

/// No key was given.
pub fn is_unspecified_api_key(key: &str) -> (r: bool)
    ensures
        r == unspecified_key(key@),
{
    let t = trim_str(key);
    t.as_str().is_empty() || str_eq(t.as_str(), EMPTY_API_KEY_SENTINEL)
}

/// The key to send when saving a credential.
pub fn api_key_for_upsert(raw: &str) -> (r: String)
    ensures
        r@ == stored_key(raw@),
{
    let t = trim_str(raw);
    if t.as_str().is_empty() {
        EMPTY_API_KEY_SENTINEL.to_string()
    } else {
        t
    }
}

/// The key as a card shows it.
pub fn mask_api_key(key: &str) -> (r: String)
    ensures
        r@ == masked_key(key@),
{
    if is_unspecified_api_key(key) {
        return "未填写".to_string();
    }
    let t = chars_of(trim_str(key).as_str());
    if t.len() <= 8 {
        return "••••".to_string();
    }
    let mut out = string_of_range(&t, 0, 4);
    out.append("…");
    let n = t.len();
    push_chars(&mut out, &t, n - 4, n);
    assert(t@.subrange(0, 4) =~= t@.take(4));
    assert(t@.subrange(n - 4, n as int) =~= t@.skip(n - 4));
    out
}

// ---------------------------------------------------------------------------
// Names
// ---------------------------------------------------------------------------

/// The provider's display name.
pub open spec fn provider_name(p: LlmApiProvider) -> Seq<char> {
    match p {
        LlmApiProvider::Openai => "OpenAI"@,
        LlmApiProvider::Anthropic => "Anthropic"@,
    }
}

/// The name a credential is shown under: its label, or the provider's name.
pub open spec fn shown_name(p: LlmApiProvider, label: Seq<char>) -> Seq<char> {
    if trim(label).len() == 0 {
        provider_name(p)
    } else {
        trim(label)
    }
}

/// The label to store after editing a name, when it changed.
pub open spec fn new_label(draft: Seq<char>, stored: Seq<char>, p: LlmApiProvider) -> Option<
    Seq<char>,
> {
    let next = trim(draft);
    if next.len() == 0 || next == shown_name(p, stored) {
        None
    } else {
        Some(next)
    }
}

/// The provider's display name.
pub fn provider_label(p: LlmApiProvider) -> (r: &'static str)
    ensures
        r@ == provider_name(p),
{
    match p {
        LlmApiProvider::Openai => "OpenAI",
        LlmApiProvider::Anthropic => "Anthropic",
    }
}

/// The name a credential is shown under.
pub fn display_name(provider: LlmApiProvider, label: &str) -> (r: String)
    ensures
        r@ == shown_name(provider, label@),
{
    let l = trim_str(label);
    if l.as_str().is_empty() {
        provider_label(provider).to_string()
    } else {
        l
    }
}

/// The name a saved credential is shown under.
pub fn display_credential_name(cred: &LlmCredentialDto) -> (r: String)
    ensures
        r@ == shown_name(cred.provider, cred.label@),
{
    display_name(cred.provider, cred.label.as_str())
}

/// The new label to store, only when the edited name differs from the one
/// shown.
pub fn renamed_label(draft: &str, stored_label: &str, provider: LlmApiProvider) -> (r: Option<
    String,
>)
    ensures
        r matches Some(s) ==> new_label(draft@, stored_label@, provider) == Some(s@),
        r is None ==> new_label(draft@, stored_label@, provider) is None,
{
    let next = trim_str(draft);
    if next.as_str().is_empty() {
        return None;
    }
    let shown = display_name(provider, stored_label);
    if str_eq(next.as_str(), shown.as_str()) {
        None
    } else {
        Some(next)
    }
}

/// What ending an edit of a card's name does: a blank field shows the saved
/// name again; a changed name is stored; otherwise nothing happens.
pub fn commit_credential_name(draft: &str, stored_label: &str, provider: LlmApiProvider) -> (r:
    NameCommit)
    ensures
        trim(draft@).len() == 0 ==> (r matches NameCommit::Reset(s) && s@ == shown_name(
            provider,
            stored_label@,
        )),
        trim(draft@).len() > 0 ==> match new_label(draft@, stored_label@, provider) {
            Some(n) => r matches NameCommit::Rename(s) && s@ == n,
            None => r is Keep,
        },
{
    let t = trim_str(draft);
    if t.as_str().is_empty() {
        return NameCommit::Reset(display_name(provider, stored_label));
    }
    match renamed_label(draft, stored_label, provider) {
        Some(n) => NameCommit::Rename(n),
        None => NameCommit::Keep,
    }
}

/// The request that adds a credential from the form: the key as stored, the
/// trimmed base URL or the provider's default, the trimmed name or the
/// provider's name.
pub fn new_credential_body(
    provider: LlmApiProvider,
    label_draft: &str,
    key_draft: &str,
    base_draft: &str,
    default_base: &str,
) -> (r: LlmCredentialUpsertBody)
    ensures
        r.id is None,
        r.provider == provider,
        r.api_key@ == stored_key(key_draft@),
        r.openai_v1_base@ == (if trim(base_draft@).len() == 0 {
            default_base@
        } else {
            trim(base_draft@)
        }),
        r.label@ == shown_name(provider, label_draft@),
{
    let api_key = api_key_for_upsert(key_draft);
    let b = trim_str(base_draft);
    let openai_v1_base = if b.as_str().is_empty() {
        default_base.to_string()
    } else {
        b
    };
    let label = display_name(provider, label_draft);
    LlmCredentialUpsertBody { id: None, provider, api_key, openai_v1_base, label }
}

/// The base URL to put in the form when the provider is switched: the new
/// provider's default, when the field is blank or still holds the previous
/// provider's default; else `None` (the field stays).
pub fn base_after_provider_switch(base: &str, previous_default: &str, next_default: &str) -> (r:
    Option<String>)
    ensures
        (trim(base@).len() == 0 || trim(base@) == previous_default@) ==> (r matches Some(s)
            && s@ == next_default@),
        !(trim(base@).len() == 0 || trim(base@) == previous_default@) ==> r is None,
{
    let t = trim_str(base);
    if t.as_str().is_empty() || str_eq(t.as_str(), previous_default) {
        Some(next_default.to_string())
    } else {
        None
    }
}

// ---------------------------------------------------------------------------
// The add form
// ---------------------------------------------------------------------------

/// The default base URL of each provider.
pub struct ProviderDefaults {
    pub openai: String,
    pub anthropic: String,
}

/// The default base URL of `provider`.
pub open spec fn default_base_of(d: ProviderDefaults, provider: LlmApiProvider) -> Seq<char> {
    match provider {
        LlmApiProvider::Openai => d.openai@,
        LlmApiProvider::Anthropic => d.anthropic@,
    }
}

/// The form that adds a credential: whether it is open, and its fields.
pub struct CredentialForm {
    pub open: bool,
    pub provider: LlmApiProvider,
    pub label: String,
    pub api_key: String,
    pub base: String,
}

/// The fields of a fresh form: OpenAI, no name, no key, OpenAI's default
/// base URL.
pub open spec fn fresh_fields(f: CredentialForm, d: ProviderDefaults) -> bool {
    &&& f.provider == LlmApiProvider::Openai
    &&& f.label@.len() == 0
    &&& f.api_key@.len() == 0
    &&& f.base@ == d.openai@
}

/// The default base URL of `provider`.
pub fn default_base(d: &ProviderDefaults, provider: LlmApiProvider) -> (r: String)
    ensures
        r@ == default_base_of(*d, provider),
{
    match provider {
        LlmApiProvider::Openai => d.openai.clone(),
        LlmApiProvider::Anthropic => d.anthropic.clone(),
    }
}

impl CredentialForm {
    /// A closed form with fresh fields.
    pub fn closed(d: &ProviderDefaults) -> (r: CredentialForm)
        ensures
            !r.open,
            fresh_fields(r, *d),
    {
        CredentialForm {
            open: false,
            provider: LlmApiProvider::Openai,
            label: String::new(),
            api_key: String::new(),
            base: d.openai.clone(),
        }
    }

    /// Closes the form and resets its fields (cancel, and after a submit).
    pub fn reset(&mut self, d: &ProviderDefaults)
        ensures
            !final(self).open,
            fresh_fields(*final(self), *d),
    {
        *self = CredentialForm::closed(d);
    }

    /// Opens the form with fresh fields.
    pub fn open_form(&mut self, d: &ProviderDefaults)
        ensures
            final(self).open,
            fresh_fields(*final(self), *d),
    {
        *self = CredentialForm::closed(d);
        self.open = true;
    }

    /// Switches the provider tab. The same provider changes nothing; another
    /// one takes the new provider's default base URL when the field is blank
    /// or still holds the previous provider's default (see
    /// [`base_after_provider_switch`]).
    pub fn switch_provider(&mut self, next: LlmApiProvider, d: &ProviderDefaults)
        ensures
            next == old(self).provider ==> *final(self) == *old(self),
            next != old(self).provider ==> {
                &&& final(self).provider == next
                &&& final(self).open == old(self).open
                &&& final(self).label == old(self).label
                &&& final(self).api_key == old(self).api_key
                &&& final(self).base@ == (if trim(old(self).base@).len() == 0 || trim(old(self).base@)
                    == default_base_of(*d, old(self).provider) {
                    default_base_of(*d, next)
                } else {
                    old(self).base@
                })
            },
    {
        if next == self.provider {
            return;
        }
        let previous = default_base(d, self.provider);
        let following = default_base(d, next);
        self.provider = next;
        match base_after_provider_switch(self.base.as_str(), previous.as_str(), following.as_str()) {
            Some(b) => {
                self.base = b;
            },
            None => {},
        }
    }

    /// Submits the form: the request that adds the credential from its
    /// fields (as [`new_credential_body`] makes it, with the provider's
    /// default base), after which the form is closed and reset.
    pub fn submit(&mut self, d: &ProviderDefaults) -> (r: LlmCredentialUpsertBody)
        ensures
            r.id is None,
            r.provider == old(self).provider,
            r.api_key@ == stored_key(old(self).api_key@),
            r.openai_v1_base@ == (if trim(old(self).base@).len() == 0 {
                default_base_of(*d, old(self).provider)
            } else {
                trim(old(self).base@)
            }),
            r.label@ == shown_name(old(self).provider, old(self).label@),
            !final(self).open,
            fresh_fields(*final(self), *d),
    {
        let def = default_base(d, self.provider);
        let body = new_credential_body(
            self.provider,
            self.label.as_str(),
            self.api_key.as_str(),
            self.base.as_str(),
            def.as_str(),
        );
        self.reset(d);
        body
    }
}

// ---------------------------------------------------------------------------
// Error messages
// ---------------------------------------------------------------------------

/// The characters at which an error text is cut into words.
pub open spec fn error_seps() -> Seq<char> {
    seq![':', '/', ' ', '\n']
}

/// The text after the last separator of `s` (all of `s` when it has none).
pub open spec fn after_last_sep(s: Seq<char>, seps: Seq<char>) -> Seq<char>
    decreases s.len(),
{
    if s.len() == 0 {
        s
    } else if seps.contains(s.last()) {
        Seq::empty()
    } else {
        after_last_sep(s.drop_last(), seps).push(s.last())
    }
}

/// The last non-empty word of `t`, or `t` itself when it has none.
pub open spec fn last_word(t: Seq<char>, seps: Seq<char>) -> Seq<char> {
    let e = crate::text::strip_end_set(t, seps);
    if e.len() == 0 {
        t
    } else {
        after_last_sep(e, seps)
    }
}

/// A raw error code: lowercase ASCII letters and underscores, with at least
/// one underscore.
pub open spec fn is_error_code(code: Seq<char>) -> bool {
    &&& code.len() > 0
    &&& forall|i: int| 0 <= i < code.len() ==> ('a' <= #[trigger] code[i] <= 'z' || code[i] == '_')
    &&& code.contains('_')
}

/// The word of `t` that may be an error code: its last word, trimmed, without
/// quotes.
pub open spec fn error_code_of(t: Seq<char>) -> Seq<char> {
    strip_set(trim(last_word(t, error_seps())), seq!['"'])
}

pub open spec fn msg_failed() -> Seq<char> {
    "操作失败，请稍后重试。"@
}

pub open spec fn msg_key_optional() -> Seq<char> {
    "保存失败。API Key 现为选填；若卡片未出现请再试一次。"@
}

pub open spec fn msg_no_endpoint() -> Seq<char> {
    "当前对话还没有可用的模型端点。"@
}

/// The message the settings page shows for a raw error text from the core.
pub open spec fn settings_error_text(raw: Seq<char>) -> Seq<char> {
    let t = trim(raw);
    if t.len() == 0 {
        msg_failed()
    } else if contains_seq(ascii_lower_seq(t), "api_key_required"@) {
        msg_key_optional()
    } else if contains_seq(ascii_lower_seq(t), "openai_api_key_missing"@) {
        msg_no_endpoint()
    } else if is_error_code(error_code_of(t)) {
        msg_failed()
    } else {
        t
    }
}

/// Whether `c` is one of the separators of error texts.
fn is_error_sep(c: char) -> (r: bool)
    ensures
        r == error_seps().contains(c),
{
    let r = c == ':' || c == '/' || c == ' ' || c == '\n';
    proof {
        let s = error_seps();
        if r {
            if c == ':' {
                assert(s[0] == c);
            } else if c == '/' {
                assert(s[1] == c);
            } else if c == ' ' {
                assert(s[2] == c);
            } else {
                assert(s[3] == c);
            }
        }
    }
    r
}

/// The last word of `t`.
fn last_word_exec(t: &Vec<char>) -> (r: Vec<char>)
    ensures
        r@ == last_word(t@, error_seps()),
{
    let mut b: usize = t.len();
    assert(t@.take(t@.len() as int) =~= t@);
    while b > 0 && is_error_sep(t[b - 1])
        invariant
            b <= t@.len(),
            crate::text::strip_end_set(t@, error_seps()) == crate::text::strip_end_set(
                t@.take(b as int),
                error_seps(),
            ),
        decreases b,
    {
        assert(t@.take(b as int).drop_last() =~= t@.take(b - 1));
        b -= 1;
    }
    assert(crate::text::strip_end_set(t@.take(b as int), error_seps()) == t@.take(b as int));
    if b == 0 {
        return t.clone();
    }
    let mut a: usize = b;
    while a > 0 && !is_error_sep(t[a - 1])
        invariant
            a <= b <= t@.len(),
            after_last_sep(t@.take(b as int), error_seps()) == after_last_sep(
                t@.take(a as int),
                error_seps(),
            ) + t@.subrange(a as int, b as int),
        decreases a,
    {
        assert(t@.take(a as int).drop_last() =~= t@.take(a - 1));
        assert(after_last_sep(t@.take(a as int), error_seps()) == after_last_sep(
            t@.take(a - 1),
            error_seps(),
        ).push(t@[a - 1]));
        assert(t@.subrange(a - 1, b as int) =~= seq![t@[a - 1]] + t@.subrange(a as int, b as int));
        assert(after_last_sep(t@.take(a - 1), error_seps()).push(t@[a - 1]) + t@.subrange(
            a as int,
            b as int,
        ) =~= after_last_sep(t@.take(a - 1), error_seps()) + t@.subrange(a - 1, b as int));
        a -= 1;
    }
    assert(after_last_sep(t@.take(a as int), error_seps()) =~= Seq::<char>::empty());
    let r = chars_of(string_of_range(t, a, b).as_str());
    assert(Seq::<char>::empty() + t@.subrange(a as int, b as int) =~= r@);
    r
}

/// Turns a raw error text of the core into a message for the settings page:
/// known codes get their own sentence, any other bare code a generic one.
pub fn format_llm_settings_error(raw: &str) -> (r: String)
    ensures
        r@ == settings_error_text(raw@),
{
    let ts = trim_str(raw);
    let t = chars_of(ts.as_str());
    if t.len() == 0 {
        return "操作失败，请稍后重试。".to_string();
    }
    let lower = ascii_lower_vec(&t);
    if contains_exec(&lower, &chars_of("api_key_required")) {
        return "保存失败。API Key 现为选填；若卡片未出现请再试一次。".to_string();
    }
    if contains_exec(&lower, &chars_of("openai_api_key_missing")) {
        return "当前对话还没有可用的模型端点。".to_string();
    }
    let word = last_word_exec(&t);
    let word_t = chars_of(trim_str(string_of(&word).as_str()).as_str());
    let mut quote: Vec<char> = Vec::new();
    quote.push('"');
    assert(quote@ =~= seq!['"']);
    let code = strip_set_exec(&word_t, &quote);
    if is_error_code_exec(&code) {
        return "操作失败，请稍后重试。".to_string();
    }
    ts
}

/// Whether `code` is a raw error code.
fn is_error_code_exec(code: &Vec<char>) -> (r: bool)
    ensures
        r == is_error_code(code@),
{
    if code.len() == 0 {
        return false;
    }
    let mut i: usize = 0;
    let mut underscore = false;
    while i < code.len()
        invariant
            i <= code@.len(),
            forall|k: int| 0 <= k < i ==> ('a' <= #[trigger] code@[k] <= 'z' || code@[k] == '_'),
            underscore <==> exists|k: int| 0 <= k < i && code@[k] == '_',
        decreases code.len() - i,
    {
        let c = code[i];
        if !(('a' <= c && c <= 'z') || c == '_') {
            return false;
        }
        if c == '_' {
            underscore = true;
        }
        i += 1;
    }
    underscore
}

// ---------------------------------------------------------------------------
// Laws
// ---------------------------------------------------------------------------

/// The messages shown for raw error codes hold no underscore.
proof fn lemma_messages_lack_underscore()
    ensures
        !msg_failed().contains('_'),
        !msg_key_optional().contains('_'),
        !msg_no_endpoint().contains('_'),
{
    reveal_strlit("操作失败，请稍后重试。");
    reveal_strlit("保存失败。API Key 现为选填；若卡片未出现请再试一次。");
    reveal_strlit("当前对话还没有可用的模型端点。");
    assert(!msg_failed().contains('_'));
    assert(!msg_key_optional().contains('_'));
    assert(!msg_no_endpoint().contains('_'));
}

/// The address blocks that count as this machine or a private network are
/// whole blocks: every address of `10/8` and `127/8`, of `192.168/16`, and of
/// `172.16/12` qualifies, whatever its other octets; an address whose first
/// octet starts none of these blocks never does.
pub proof fn law_private_blocks_are_whole(a: u8, b: u8)
    ensures
        a == 10 ==> private_ipv4(a, b),
        a == 127 ==> private_ipv4(a, b),
        a == 192 && b == 168 ==> private_ipv4(a, b),
        a == 172 && 16 <= b <= 31 ==> private_ipv4(a, b),
        a != 10 && a != 127 && a != 192 && a != 172 ==> !private_ipv4(a, b),
        a == 172 && (b < 16 || b > 31) ==> !private_ipv4(a, b),
        a == 192 && b != 168 ==> !private_ipv4(a, b),
{
}

/// A base URL whose host is a dotted address in `10/8`, `127/8`,
/// `192.168/16` or `172.16/12` points at a private network (so an empty API
/// key is allowed), whatever the remaining octets.
pub proof fn law_private_address_base_is_local(base: Seq<char>)
    requires
        host_of_base(base) matches Some(h) && ipv4_of(strip_set(trim(h), seq!['[', ']'])) matches Some(
            ip,
        ) && (ip[0] == 10 || ip[0] == 127 || (ip[0] == 192 && ip[1] == 168) || (ip[0] == 172 && 16
            <= ip[1] <= 31)),
    ensures
        local_base(base),
{
}

/// A raw error code is never shown as it is: a blank text, a text naming one
/// of the known codes, or one whose last word is a code gets a fixed sentence,
/// which holds no underscore and so no code.
pub proof fn law_error_codes_hidden(raw: Seq<char>, code: Seq<char>)
    requires
        is_error_code(code),
    ensures
        ({
            let t = trim(raw);
            ||| t.len() == 0
            ||| contains_seq(ascii_lower_seq(t), "api_key_required"@)
            ||| contains_seq(ascii_lower_seq(t), "openai_api_key_missing"@)
            ||| is_error_code(error_code_of(t))
        }) ==> !contains_seq(settings_error_text(raw), code),
        is_error_code(error_code_of(trim(raw))) ==> !contains_seq(
            settings_error_text(raw),
            error_code_of(trim(raw)),
        ),
{
    lemma_messages_lack_underscore();
    let m = settings_error_text(raw);
    let t = trim(raw);
    let fixed = t.len() == 0 || contains_seq(ascii_lower_seq(t), "api_key_required"@)
        || contains_seq(ascii_lower_seq(t), "openai_api_key_missing"@) || is_error_code(
        error_code_of(t),
    );
    if fixed {
        assert(!m.contains('_'));
        assert forall|c: Seq<char>| is_error_code(c) implies !contains_seq(m, c) by {
            let j = choose|j: int| 0 <= j < c.len() && c[j] == '_';
            if contains_seq(m, c) {
                let i = choose|i: int| crate::text::occurs_at(m, c, i);
                assert(m.subrange(i, i + c.len())[j] == m[i + j]);
                assert(m[i + j] == '_');
            }
        }
    }
}

/// A key left empty is saved as the stand-in and shown as "未填写"; any
/// other key is saved trimmed; saving keeps whether a key was given.
pub proof fn law_empty_key_round_trip(raw: Seq<char>)
    ensures
        trim(raw).len() == 0 ==> masked_key(stored_key(raw)) == "未填写"@,
        trim(raw).len() > 0 ==> stored_key(raw) == trim(raw),
        unspecified_key(stored_key(raw)) == unspecified_key(raw),
{
    reveal_strlit("__pusa_no_key__");
    let sen = EMPTY_API_KEY_SENTINEL@;
    assert(!is_ws(sen[0]));
    assert(trim_start(sen) == sen);
    assert(!is_ws(sen.last()));
    assert(crate::text::trim_end(sen) == sen);
    assert(trim(sen) == sen);
    lemma_trim_idempotent(raw);
}

/// A new label, once stored, is the name the card shows, and entering the
/// same name again changes nothing.
pub proof fn law_rename_then_shown(draft: Seq<char>, stored: Seq<char>, p: LlmApiProvider)
    ensures
        new_label(draft, stored, p) matches Some(n) ==> (shown_name(p, n) == n && n != shown_name(
            p,
            stored,
        ) && new_label(draft, n, p) is None),
{
    lemma_trim_idempotent(draft);
}

/// What the first-run OpenAI setup saves: the trimmed key and base URL (the
/// default base when none was typed); nothing without a key.
pub fn openai_setup_config(api_key: &str, base: &str, default_base: &str) -> (r: Option<(String, String)>)
    ensures
        trim(api_key@).len() == 0 <==> r is None,
        r matches Some(c) ==> c.0@ == trim(api_key@) && c.1@ == (if trim(base@).len() == 0 {
            default_base@
        } else {
            trim(base@)
        }),
{
    let k = trim_str(api_key);
    if k.as_str().is_empty() {
        return None;
    }
    let b = trim_str(base);
    let base_final = if b.as_str().is_empty() {
        default_base.to_string()
    } else {
        b
    };
    Some((k, base_final))
}

} // verus!
