//! The skill market and role sidebar: source names, user-facing warnings,
//! whether a skill is equipped, the name of a new role, and the chat models
//! offered before the server answers.
use vstd::prelude::*;
use crate::text::{
    ascii_lower_seq, ascii_lower_vec, chars_of, concat, contains_seq, digits_value, is_digit, last_index_of,
    last_index_of_exec, lemma_last_index_of, push_decimal, decimal, seq_eq, starts_with,
    str_eq, str_starts_with, trim, trim_start, trim_start_str, trim_str,
};

verus! {

broadcast use vstd::seq_lib::group_seq_properties;

/// The chat model chosen before the user picks one.
pub const DEFAULT_CHAT_MODEL_ID: &'static str = "gpt-5.4";

/// A chat model the picker offers.
#[derive(Clone, Debug)]
pub struct ChatModelEntry {
    pub id: String,
    pub display_name: Option<String>,
}

/// A skill market station.
#[derive(Clone, Debug)]
pub struct SkillRegistryDto {
    pub id: String,
    pub name: String,
    pub homepage: String,
}

/// The models offered when the server lists none.
pub fn fallback_chat_models() -> (r: Vec<ChatModelEntry>)
    ensures
        r@.len() == 2,
        r@[0].id@ == DEFAULT_CHAT_MODEL_ID@,
        r@[0].display_name matches Some(d) && d@ == "稳定平衡"@,
        r@[1].id@ == "gpt-5.5"@,
        r@[1].display_name matches Some(d) && d@ == "最新推理"@,
{
    let mut v: Vec<ChatModelEntry> = Vec::new();
    v.push(ChatModelEntry { id: DEFAULT_CHAT_MODEL_ID.to_string(), display_name: Some("稳定平衡".to_string()) });
    v.push(ChatModelEntry { id: "gpt-5.5".to_string(), display_name: Some("最新推理".to_string()) });
    v
}

/// The chat model to start with: the one saved before, else the default.
pub fn initial_chat_model(saved: Option<String>) -> (r: String)
    ensures
        r@ == match saved {
            Some(s) => s@,
            None => DEFAULT_CHAT_MODEL_ID@,
        },
{
    match saved {
        Some(s) => s,
        None => DEFAULT_CHAT_MODEL_ID.to_string(),
    }
}

/// A market warning as shown: the raw text in developer mode, else only which
/// station could not be reached.
pub open spec fn market_warning_text(warning: Seq<char>, developer_mode: bool) -> Seq<char> {
    if developer_mode {
        warning
    } else if starts_with(warning, "ClawHub: "@) {
        "ClawHub：连接失败"@
    } else if starts_with(warning, "SkillsMP: "@) {
        "SkillsMP：连接失败"@
    } else if starts_with(warning, "腾讯 SkillHub: "@) {
        "腾讯 SkillHub：连接失败"@
    } else {
        "技能市场：连接失败"@
    }
}

/// A market warning as shown.
pub fn skill_market_warning_for_ui(warning: &str, developer_mode: bool) -> (r: String)
    ensures
        r@ == market_warning_text(warning@, developer_mode),
{
    if developer_mode {
        return warning.to_string();
    }
    if str_starts_with(warning, "ClawHub: ") {
        return "ClawHub：连接失败".to_string();
    }
    if str_starts_with(warning, "SkillsMP: ") {
        return "SkillsMP：连接失败".to_string();
    }
    if str_starts_with(warning, "腾讯 SkillHub: ") {
        return "腾讯 SkillHub：连接失败".to_string();
    }
    "技能市场：连接失败".to_string()
}

/// The error shown when the whole market request failed: the raw message in
/// developer mode, else a fixed sentence.
pub fn skill_market_fatal_error_for_ui(message: &str, developer_mode: bool) -> (r: String)
    ensures
        developer_mode ==> r@ == message@,
        !developer_mode ==> r@ == "无法加载技能市场（连接失败）"@,
{
    if developer_mode {
        return message.to_string();
    }
    "无法加载技能市场（连接失败）".to_string()
}

/// The name a market source is shown under.
pub open spec fn source_name(source: Seq<char>) -> Seq<char> {
    if source == "clawhub"@ {
        "ClawHub"@
    } else if source == "skillsmp"@ {
        "SkillsMP"@
    } else if source == "tencent-skillhub"@ {
        "腾讯 SkillHub"@
    } else {
        "技能市场"@
    }
}

/// The name a market source is shown under.
pub fn skill_source_label(source: &str) -> (r: &'static str)
    ensures
        r@ == source_name(source@),
{
    if str_eq(source, "clawhub") {
        "ClawHub"
    } else if str_eq(source, "skillsmp") {
        "SkillsMP"
    } else if str_eq(source, "tencent-skillhub") {
        "腾讯 SkillHub"
    } else {
        "技能市场"
    }
}

/// The stations of the skill market, before the server lists them.
pub fn default_skill_market_stations() -> (r: Vec<SkillRegistryDto>)
    ensures
        r@.len() == 3,
        r@[0].id@ == "clawhub"@ && r@[0].name@ == "ClawHub"@ && r@[0].homepage@ == "https://clawhub.ai"@,
        r@[1].id@ == "skillsmp"@ && r@[1].name@ == "SkillsMP"@ && r@[1].homepage@ == "https://skillsmp.com"@,
        r@[2].id@ == "tencent-skillhub"@ && r@[2].name@ == "腾讯 SkillHub"@ && r@[2].homepage@
            == "https://skillhub.tencent.com"@,
        forall|i: int| 0 <= i < 3 ==> source_name((#[trigger] r@[i]).id@) == r@[i].name@,
{
    let mut v: Vec<SkillRegistryDto> = Vec::new();
    v.push(SkillRegistryDto { id: "clawhub".to_string(), name: "ClawHub".to_string(), homepage: "https://clawhub.ai".to_string() });
    v.push(SkillRegistryDto { id: "skillsmp".to_string(), name: "SkillsMP".to_string(), homepage: "https://skillsmp.com".to_string() });
    v.push(SkillRegistryDto {
        id: "tencent-skillhub".to_string(),
        name: "腾讯 SkillHub".to_string(),
        homepage: "https://skillhub.tencent.com".to_string(),
    });
    proof {
        reveal_strlit("clawhub");
        reveal_strlit("skillsmp");
        reveal_strlit("tencent-skillhub");
        assert("skillsmp"@.len() != "clawhub"@.len());
        assert("tencent-skillhub"@.len() != "clawhub"@.len());
        assert("tencent-skillhub"@.len() != "skillsmp"@.len());
    }
    v
}

/// Whether a market warning is about the station `station_id` (an unknown
/// station takes every warning).
pub open spec fn warning_for_station(warning: Seq<char>, station_id: Seq<char>) -> bool {
    if station_id == "clawhub"@ {
        starts_with(warning, "ClawHub"@)
    } else if station_id == "skillsmp"@ {
        starts_with(warning, "SkillsMP"@)
    } else if station_id == "tencent-skillhub"@ {
        starts_with(warning, "腾讯 SkillHub"@)
    } else {
        true
    }
}

/// Whether a market warning is about the station `station_id`.
pub fn skill_station_warning_matches(warning: &str, station_id: &str) -> (r: bool)
    ensures
        r == warning_for_station(warning@, station_id@),
{
    if str_eq(station_id, "clawhub") {
        str_starts_with(warning, "ClawHub")
    } else if str_eq(station_id, "skillsmp") {
        str_starts_with(warning, "SkillsMP")
    } else if str_eq(station_id, "tencent-skillhub") {
        str_starts_with(warning, "腾讯 SkillHub")
    } else {
        true
    }
}

// ---------------------------------------------------------------------------
// Equipped skills
// ---------------------------------------------------------------------------

/// The last `/`-separated part of `s` (all of `s` without `/`).
pub open spec fn base_name(s: Seq<char>) -> Seq<char> {
    match last_index_of(s, '/') {
        Some(k) => s.skip(k + 1),
        None => s,
    }
}

/// A slug matches an equipped key when they are equal ignoring ASCII case,
/// or their last path parts are.
pub open spec fn slug_matches(equipped: Seq<char>, slug: Seq<char>) -> bool {
    ascii_lower_seq(equipped) == ascii_lower_seq(slug) || base_name(ascii_lower_seq(equipped))
        == base_name(ascii_lower_seq(slug))
}

/// Whether `slug` is among the equipped skills.
pub open spec fn equipped(keys: Seq<Seq<char>>, slug: Seq<char>) -> bool {
    exists|i: int| 0 <= i < keys.len() && slug_matches(#[trigger] keys[i], slug)
}

fn base_name_exec(v: &Vec<char>) -> (r: Vec<char>)
    ensures
        r@ == base_name(v@),
{
    match last_index_of_exec(v, '/') {
        Some(k) => {
            let n = v.len();
            proof {
                lemma_last_index_of(v@, '/');
            }
            let r = chars_of(crate::text::string_of_range(v, k + 1, n).as_str());
            assert(r@ =~= v@.skip(k + 1));
            r
        },
        None => v.clone(),
    }
}

/// Whether `slug` is among the equipped skills (a full key such as
/// `binance/spot` and its last part `spot` match each other).
pub fn skill_slug_equipped(equipped_slugs: &Vec<String>, slug: &str) -> (r: bool)
    ensures
        r == equipped(crate::llm_enabled::ids(equipped_slugs@), slug@),
{
    let ghost keys = crate::llm_enabled::ids(equipped_slugs@);
    let slug_lc = ascii_lower_vec(&chars_of(slug));
    let slug_base = base_name_exec(&slug_lc);
    let mut i: usize = 0;
    while i < equipped_slugs.len()
        invariant
            i <= equipped_slugs@.len(),
            keys == crate::llm_enabled::ids(equipped_slugs@),
            slug_lc@ == ascii_lower_seq(slug@),
            slug_base@ == base_name(slug_lc@),
            forall|k: int| 0 <= k < i ==> !slug_matches(#[trigger] keys[k], slug@),
        decreases equipped_slugs.len() - i,
    {
        assert(keys[i as int] == equipped_slugs@[i as int]@);
        let s_lc = ascii_lower_vec(&chars_of(equipped_slugs[i].as_str()));
        if seq_eq(&s_lc, &slug_lc) {
            assert(slug_matches(keys[i as int], slug@));
            return true;
        }
        let s_base = base_name_exec(&s_lc);
        if seq_eq(&s_base, &slug_base) {
            assert(slug_matches(keys[i as int], slug@));
            return true;
        }
        i += 1;
    }
    false
}

/// The label of the equip button: "忘却" for an equipped skill, else "学习".
pub fn skill_equip_button_label(slugs: &Vec<String>, slug: &str) -> (r: &'static str)
    ensures
        equipped(crate::llm_enabled::ids(slugs@), slug@) ==> r@ == "忘却"@,
        !equipped(crate::llm_enabled::ids(slugs@), slug@) ==> r@ == "学习"@,
{
    if skill_slug_equipped(slugs, slug) {
        "忘却"
    } else {
        "学习"
    }
}

// ---------------------------------------------------------------------------
// New role names
// ---------------------------------------------------------------------------

/// The number of a role named `新角色` followed by exactly two digits
/// (spaces allowed between), if the name has that form.
pub open spec fn role_number(name: Seq<char>) -> Option<nat> {
    let t = trim(name);
    if starts_with(t, "新角色"@) {
        let num = trim_start(t.skip(3));
        if num.len() == 2 && is_digit(num[0]) && is_digit(num[1]) {
            Some(digits_value(num))
        } else {
            None
        }
    } else {
        None
    }
}

/// The largest role number among `names` (`0` without one).
pub open spec fn max_role_number(names: Seq<Seq<char>>) -> nat
    decreases names.len(),
{
    if names.len() == 0 {
        0
    } else {
        let m = max_role_number(names.drop_last());
        match role_number(names.last()) {
            Some(n) => if n > m {
                n
            } else {
                m
            },
            None => m,
        }
    }
}

/// Two decimal digits of `n < 100`.
pub open spec fn two_digits(n: nat) -> Seq<char> {
    seq![crate::text::digit_char(n / 10), crate::text::digit_char(n % 10)]
}

/// The name of a new role: `新角色` and the next number after the largest
/// existing two-digit one, written with two digits up to 99.
pub open spec fn new_role_name(names: Seq<Seq<char>>) -> Seq<char> {
    let next = max_role_number(names) + 1;
    if next <= 99 {
        "新角色"@ + two_digits(next)
    } else {
        "新角色"@ + decimal(next)
    }
}

proof fn lemma_max_role_number(names: Seq<Seq<char>>)
    ensures
        max_role_number(names) <= 99,
    decreases names.len(),
{
    if names.len() > 0 {
        lemma_max_role_number(names.drop_last());
        match role_number(names.last()) {
            Some(n) => {
                let num = trim_start(trim(names.last()).skip(3));
                assert(digits_value(num) == digits_value(num.drop_last()) * 10 + ((num.last() as u32) - ('0' as u32)) as nat);
                assert(num.drop_last().drop_last() =~= Seq::<char>::empty());
                assert(num.drop_last().last() == num[0]);
                assert(digits_value(num.drop_last().drop_last()) == 0);
                assert(digits_value(num.drop_last()) == ((num[0] as u32) - ('0' as u32)) as nat);
            },
            None => {},
        }
    }
}

/// The number of a role name, if it has one.
fn role_number_exec(name: &str) -> (r: Option<u32>)
    ensures
        match r {
            Some(n) => role_number(name@) == Some(n as nat),
            None => role_number(name@) is None,
        },
{
    let t = trim_str(name);
    if !str_starts_with(t.as_str(), "新角色") {
        return None;
    }
    proof {
        reveal_strlit("新角色");
    }
    let tv = chars_of(t.as_str());
    let n = tv.len();
    let rest = crate::text::string_of_range(&tv, 3, n);
    assert(rest@ =~= t@.skip(3));
    let num = chars_of(trim_start_str(rest.as_str()).as_str());
    if num.len() == 2 && '0' <= num[0] && num[0] <= '9' && '0' <= num[1] && num[1] <= '9' {
        let a = (num[0] as u32) - ('0' as u32);
        let b = (num[1] as u32) - ('0' as u32);
        proof {
            assert(num@.drop_last().drop_last() =~= Seq::<char>::empty());
            assert(num@.drop_last().last() == num@[0]);
            assert(digits_value(num@.drop_last().drop_last()) == 0);
            assert(digits_value(num@.drop_last()) == a);
            assert(digits_value(num@) == a * 10 + b);
        }
        Some(a * 10 + b)
    } else {
        None
    }
}

/// The name of a new role, after those of `role_names`.
pub fn next_new_role_display_name(role_names: &Vec<String>) -> (r: String)
    ensures
        r@ == new_role_name(crate::llm_enabled::ids(role_names@)),
{
    let ghost names = crate::llm_enabled::ids(role_names@);
    let mut max_n: u32 = 0;
    let mut i: usize = 0;
    while i < role_names.len()
        invariant
            i <= role_names@.len(),
            names == crate::llm_enabled::ids(role_names@),
            max_n == max_role_number(names.take(i as int)),
            max_n <= 99,
        decreases role_names.len() - i,
    {
        proof {
            assert(names.take(i as int + 1).drop_last() =~= names.take(i as int));
            assert(names[i as int] == role_names@[i as int]@);
            lemma_max_role_number(names.take(i as int + 1));
        }
        match role_number_exec(role_names[i].as_str()) {
            Some(n) => {
                if n > max_n {
                    max_n = n;
                }
            },
            None => {},
        }
        i += 1;
    }
    assert(names.take(names.len() as int) =~= names);
    let next = max_n + 1;
    let mut out = "新角色".to_string();
    if next <= 99 {
        let tens = next / 10;
        let ones = next % 10;
        let c1 = crate::text::digit_char_exec(tens);
        let c2 = crate::text::digit_char_exec(ones);
        crate::text::push_char(&mut out, c1);
        crate::text::push_char(&mut out, c2);
        assert(out@ =~= "新角色"@ + two_digits(next as nat));
    } else {
        push_decimal(&mut out, next as u64);
    }
    out
}

// ---------------------------------------------------------------------------
// Removing an installed skill
// ---------------------------------------------------------------------------

/// A skill installed on this machine.
#[derive(Clone, Debug)]
pub struct InstalledSkillDto {
    pub slug: String,
    pub title: String,
    pub description: String,
}

/// A copy of an installed skill.
pub fn copy_installed(i: &InstalledSkillDto) -> (r: InstalledSkillDto)
    ensures
        r == *i,
{
    InstalledSkillDto { slug: i.slug.clone(), title: i.title.clone(), description: i.description.clone() }
}

/// Whether a text is not `slug`, ignoring ASCII case.
pub open spec fn not_slug(slug: Seq<char>) -> spec_fn(Seq<char>) -> bool {
    |x: Seq<char>| !crate::text::eq_ignore_ascii_case(x, slug)
}

/// Whether an installed skill is kept when `slug` is removed.
pub open spec fn keeps_skill(slug: Seq<char>) -> spec_fn(InstalledSkillDto) -> bool {
    |i: InstalledSkillDto| !crate::text::eq_ignore_ascii_case(i.slug@, slug)
}

/// The texts of a list of strings.
pub open spec fn texts(v: Seq<String>) -> Seq<Seq<char>> {
    v.map_values(|s: String| s@)
}

/// After skill `slug` was removed: it leaves the installed and the equipped
/// lists (ignoring ASCII case), stops being the selected skill, and its tab
/// (whose id is returned) is to be closed.
pub fn apply_skill_uninstalled(
    installed: &mut Vec<InstalledSkillDto>,
    equipped: &mut Vec<String>,
    selected: &mut Option<String>,
    slug: &str,
) -> (tab_id: String)
    ensures
        final(installed)@ == old(installed)@.filter(keeps_skill(slug@)),
        texts(final(equipped)@) == texts(old(equipped)@).filter(not_slug(slug@)),
        match *old(selected) {
            Some(s) => if s@ == slug@ {
                *final(selected) is None
            } else {
                *final(selected) == *old(selected)
            },
            None => *final(selected) is None,
        },
        tab_id@ == "skill:installed:"@ + slug@,
{
    let sv = chars_of(slug);
    let ghost before_i = installed@;
    let mut kept: Vec<InstalledSkillDto> = Vec::new();
    let mut i: usize = 0;
    while i < installed.len()
        invariant
            i <= installed@.len(),
            before_i == installed@,
            sv@ == slug@,
            kept@ == before_i.take(i as int).filter(keeps_skill(slug@)),
        decreases installed.len() - i,
    {
        proof {
            assert(before_i.take(i + 1) =~= before_i.take(i as int).push(before_i[i as int]));
            before_i.take(i as int).lemma_filter_push(before_i[i as int], keeps_skill(slug@));
        }
        if !crate::text::eq_ignore_ascii_case_exec(&chars_of(installed[i].slug.as_str()), &sv) {
            let item = copy_installed(&installed[i]);
            kept.push(item);
        }
        i += 1;
    }
    assert(before_i.take(before_i.len() as int) =~= before_i);
    *installed = kept;
    let ghost before_e = equipped@;
    let mut keep_slugs: Vec<String> = Vec::new();
    let mut j: usize = 0;
    while j < equipped.len()
        invariant
            j <= equipped@.len(),
            before_e == equipped@,
            sv@ == slug@,
            texts(keep_slugs@) == texts(before_e.take(j as int)).filter(not_slug(slug@)),
        decreases equipped.len() - j,
    {
        proof {
            assert(texts(before_e.take(j + 1)) =~= texts(before_e.take(j as int)).push(before_e[j as int]@));
            texts(before_e.take(j as int)).lemma_filter_push(before_e[j as int]@, not_slug(slug@));
        }
        if !crate::text::eq_ignore_ascii_case_exec(&chars_of(equipped[j].as_str()), &sv) {
            let s = equipped[j].clone();
            let ghost prev = keep_slugs@;
            keep_slugs.push(s);
            assert(texts(keep_slugs@) =~= texts(prev).push(s@));
        }
        j += 1;
    }
    assert(before_e.take(before_e.len() as int) =~= before_e);
    *equipped = keep_slugs;
    let clear = match selected {
        Some(s) => str_eq(s.as_str(), slug),
        None => false,
    };
    if clear {
        *selected = None;
    }
    concat("skill:installed:", slug)
}

// ---------------------------------------------------------------------------
// The chat model picker
// ---------------------------------------------------------------------------

/// The ids of a list of models.
pub open spec fn model_ids(v: Seq<ChatModelEntry>) -> Seq<Seq<char>> {
    v.map_values(|m: ChatModelEntry| m.id@)
}

/// Takes the server's list of chat models: a non-empty list replaces the
/// models offered; otherwise they stay, and the returned hint says why.
pub fn apply_model_list(models: &mut Vec<ChatModelEntry>, listed: Result<Vec<ChatModelEntry>, String>) -> (hint: Option<String>)
    ensures
        match listed {
            Ok(v) => if v@.len() > 0 {
                final(models)@ == v@ && hint is None
            } else {
                final(models)@ == old(models)@ && (hint matches Some(h) && h@ == "模型列表为空，已使用本地默认"@)
            },
            Err(_) => final(models)@ == old(models)@ && (hint matches Some(h) && h@ == "模型列表暂时不可用，已使用本地默认"@),
        },
{
    match listed {
        Ok(v) => {
            if v.len() > 0 {
                *models = v;
                None
            } else {
                Some("模型列表为空，已使用本地默认".to_string())
            }
        },
        Err(_) => Some("模型列表暂时不可用，已使用本地默认".to_string()),
    }
}

/// The model to switch to when the chosen one is no longer offered: the
/// first offered; `None` while it is offered or nothing is.
pub open spec fn reconciled_model(ids: Seq<Seq<char>>, current: Seq<char>) -> Option<Seq<char>> {
    if ids.len() == 0 || ids.contains(current) {
        None
    } else {
        Some(ids[0])
    }
}

/// The model to switch to (and save) when the chosen one is no longer
/// offered.
pub fn reconcile_chat_model(models: &Vec<ChatModelEntry>, current: &str) -> (r: Option<String>)
    ensures
        match r {
            Some(m) => reconciled_model(model_ids(models@), current@) == Some(m@),
            None => reconciled_model(model_ids(models@), current@) is None,
        },
{
    let ghost ids = model_ids(models@);
    if models.len() == 0 {
        return None;
    }
    let mut i: usize = 0;
    while i < models.len()
        invariant
            i <= models@.len(),
            ids == model_ids(models@),
            forall|j: int| 0 <= j < i ==> ids[j] != current@,
        decreases models.len() - i,
    {
        if str_eq(models[i].id.as_str(), current) {
            assert(ids[i as int] == current@);
            return None;
        }
        i += 1;
    }
    assert(!ids.contains(current@));
    assert(ids[0] == models@[0].id@);
    Some(models[0].id.clone())
}

/// The label of the picker's button: the chosen model's id in upper case.
pub fn model_trigger_label(current: &str) -> (r: String)
    ensures
        r@ == crate::search::uppercase(current@),
{
    crate::search::str_to_uppercase(current)
}

/// Once reconciled, the chosen model is one that is offered (when any is).
pub proof fn law_reconciled_model_is_offered(ids: Seq<Seq<char>>, current: Seq<char>)
    requires
        ids.len() > 0,
    ensures
        ids.contains(
            match reconciled_model(ids, current) {
                Some(m) => m,
                None => current,
            },
        ),
{
    if !ids.contains(current) {
        assert(ids[0] == ids[0]);
    }
}

// ---------------------------------------------------------------------------
// Filtering the skill lists
// ---------------------------------------------------------------------------

/// A skill offered by a market station.
#[derive(Clone, Debug)]
pub struct SkillMarketItemDto {
    pub id: String,
    pub name: String,
    pub description: String,
    pub author: String,
    pub source: String,
    pub downloads: i64,
    pub stars: i64,
    pub installed: bool,
    pub installable: bool,
    pub install_url: Option<String>,
}

/// A market skill as the list shows it: its station's name and its install
/// key (counts are worded by the caller).
#[derive(Clone, Debug)]
pub struct SkillMarketCard {
    pub item: SkillMarketItemDto,
    pub source_label: &'static str,
    pub install_key: String,
}

/// Whether `text`, in ASCII lower case, holds `q`.
pub open spec fn lower_has(text: Seq<char>, q: Seq<char>) -> bool {
    contains_seq(ascii_lower_seq(text), q)
}

/// The search typed above a skill list, as matched: trimmed, in ASCII lower
/// case.
pub open spec fn skill_query(search: Seq<char>) -> Seq<char> {
    ascii_lower_seq(trim(search))
}

/// Whether a market skill matches the search `q`: its name, description or
/// author holds it.
pub open spec fn market_item_matches(i: SkillMarketItemDto, q: Seq<char>) -> bool {
    q.len() == 0 || lower_has(i.name@, q) || lower_has(i.description@, q) || lower_has(i.author@, q)
}

/// Whether an installed skill matches the search `q`: its title, description
/// or slug holds it.
pub open spec fn installed_matches(i: InstalledSkillDto, q: Seq<char>) -> bool {
    q.len() == 0 || lower_has(i.title@, q) || lower_has(i.description@, q) || lower_has(i.slug@, q)
}

fn lower_contains(text: &str, q: &Vec<char>) -> (r: bool)
    ensures
        r == lower_has(text@, q@),
{
    let l = ascii_lower_vec(&chars_of(text));
    crate::text::contains_exec(&l, q)
}

fn query_chars(search: &str) -> (r: Vec<char>)
    ensures
        r@ == skill_query(search@),
{
    ascii_lower_vec(&chars_of(trim_str(search).as_str()))
}

/// The market skills matching the search, as cards with their station's name
/// and install key (`source:id`).
pub fn skill_market_cards(items: &Vec<SkillMarketItemDto>, search: &str) -> (r: Vec<SkillMarketCard>)
    ensures
        r@.map_values(|c: SkillMarketCard| c.item) == items@.filter(
            |i: SkillMarketItemDto| market_item_matches(i, skill_query(search@)),
        ),
        forall|k: int|
            0 <= k < r@.len() ==> (#[trigger] r@[k]).source_label@ == source_name(r@[k].item.source@)
                && r@[k].install_key@ == r@[k].item.source@ + ":"@ + r@[k].item.id@,
{
    let q = query_chars(search);
    let ghost pred = |i: SkillMarketItemDto| market_item_matches(i, skill_query(search@));
    let mut out: Vec<SkillMarketCard> = Vec::new();
    let mut i: usize = 0;
    while i < items.len()
        invariant
            i <= items@.len(),
            q@ == skill_query(search@),
            pred == (|i: SkillMarketItemDto| market_item_matches(i, skill_query(search@))),
            out@.map_values(|c: SkillMarketCard| c.item) == items@.take(i as int).filter(pred),
            forall|k: int|
                0 <= k < out@.len() ==> (#[trigger] out@[k]).source_label@ == source_name(out@[k].item.source@)
                    && out@[k].install_key@ == out@[k].item.source@ + ":"@ + out@[k].item.id@,
        decreases items.len() - i,
    {
        proof {
            assert(items@.take(i + 1) =~= items@.take(i as int).push(items@[i as int]));
            items@.take(i as int).lemma_filter_push(items@[i as int], pred);
        }
        let it = &items[i];
        let keep = q.len() == 0 || lower_contains(it.name.as_str(), &q) || lower_contains(
            it.description.as_str(),
            &q,
        ) || lower_contains(it.author.as_str(), &q);
        if keep {
            let item = copy_market_item(it);
            let mut key = item.source.clone();
            key.append(":");
            key.append(item.id.as_str());
            let card = SkillMarketCard { source_label: skill_source_label(item.source.as_str()), install_key: key, item };
            let ghost prev = out@;
            out.push(card);
            assert(out@.map_values(|c: SkillMarketCard| c.item) =~= prev.map_values(|c: SkillMarketCard| c.item).push(items@[i as int]));
        }
        i += 1;
    }
    assert(items@.take(items@.len() as int) =~= items@);
    out
}

/// A copy of a market skill.
pub fn copy_market_item(i: &SkillMarketItemDto) -> (r: SkillMarketItemDto)
    ensures
        r == *i,
{
    SkillMarketItemDto {
        id: i.id.clone(),
        name: i.name.clone(),
        description: i.description.clone(),
        author: i.author.clone(),
        source: i.source.clone(),
        downloads: i.downloads,
        stars: i.stars,
        installed: i.installed,
        installable: i.installable,
        install_url: match &i.install_url {
            Some(u) => Some(u.clone()),
            None => None,
        },
    }
}

/// The cards of one market station.
pub fn station_cards(cards: &Vec<SkillMarketCard>, station: &str) -> (r: Vec<SkillMarketCard>)
    ensures
        r@ == cards@.filter(|c: SkillMarketCard| c.item.source@ == station@),
{
    let ghost pred = |c: SkillMarketCard| c.item.source@ == station@;
    let mut out: Vec<SkillMarketCard> = Vec::new();
    let mut i: usize = 0;
    while i < cards.len()
        invariant
            i <= cards@.len(),
            pred == (|c: SkillMarketCard| c.item.source@ == station@),
            out@ == cards@.take(i as int).filter(pred),
        decreases cards.len() - i,
    {
        proof {
            assert(cards@.take(i + 1) =~= cards@.take(i as int).push(cards@[i as int]));
            cards@.take(i as int).lemma_filter_push(cards@[i as int], pred);
        }
        if str_eq(cards[i].item.source.as_str(), station) {
            let c = &cards[i];
            let copy = SkillMarketCard {
                item: copy_market_item(&c.item),
                source_label: c.source_label,
                install_key: c.install_key.clone(),
            };
            assert(copy == cards@[i as int]);
            out.push(copy);
        }
        i += 1;
    }
    assert(cards@.take(cards@.len() as int) =~= cards@);
    out
}

/// The warnings of one market station.
pub fn station_warnings(warnings: &Vec<String>, station: &str) -> (r: Vec<String>)
    ensures
        texts(r@) == texts(warnings@).filter(|w: Seq<char>| warning_for_station(w, station@)),
{
    let ghost pred = |w: Seq<char>| warning_for_station(w, station@);
    let mut out: Vec<String> = Vec::new();
    let mut i: usize = 0;
    while i < warnings.len()
        invariant
            i <= warnings@.len(),
            pred == (|w: Seq<char>| warning_for_station(w, station@)),
            texts(out@) == texts(warnings@.take(i as int)).filter(pred),
        decreases warnings.len() - i,
    {
        proof {
            assert(texts(warnings@.take(i + 1)) =~= texts(warnings@.take(i as int)).push(warnings@[i as int]@));
            texts(warnings@.take(i as int)).lemma_filter_push(warnings@[i as int]@, pred);
        }
        if skill_station_warning_matches(warnings[i].as_str(), station) {
            let w = warnings[i].clone();
            let ghost prev = out@;
            out.push(w);
            assert(texts(out@) =~= texts(prev).push(w@));
        }
        i += 1;
    }
    assert(warnings@.take(warnings@.len() as int) =~= warnings@);
    out
}

/// The installed skills matching the search.
pub fn filter_installed_skills(list: &Vec<InstalledSkillDto>, search: &str) -> (r: Vec<InstalledSkillDto>)
    ensures
        r@ == list@.filter(|i: InstalledSkillDto| installed_matches(i, skill_query(search@))),
{
    let q = query_chars(search);
    let ghost pred = |i: InstalledSkillDto| installed_matches(i, skill_query(search@));
    let mut out: Vec<InstalledSkillDto> = Vec::new();
    let mut i: usize = 0;
    while i < list.len()
        invariant
            i <= list@.len(),
            q@ == skill_query(search@),
            pred == (|i: InstalledSkillDto| installed_matches(i, skill_query(search@))),
            out@ == list@.take(i as int).filter(pred),
        decreases list.len() - i,
    {
        proof {
            assert(list@.take(i + 1) =~= list@.take(i as int).push(list@[i as int]));
            list@.take(i as int).lemma_filter_push(list@[i as int], pred);
        }
        let it = &list[i];
        let keep = q.len() == 0 || lower_contains(it.title.as_str(), &q) || lower_contains(
            it.description.as_str(),
            &q,
        ) || lower_contains(it.slug.as_str(), &q);
        if keep {
            out.push(copy_installed(it));
        }
        i += 1;
    }
    assert(list@.take(list@.len() as int) =~= list@);
    out
}

} // verus!
