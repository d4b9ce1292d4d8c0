//! The assistant's roles: named system prompts, one of them active, one of
//! them open in the editor.
//!
//! The server stores the roles; these functions decide what the list and the
//! editor show after each of its answers.
use vstd::prelude::*;
use crate::text::{str_eq, trim, trim_str};

verus! {

broadcast use vstd::seq_lib::group_seq_properties;

/// A role as the server sends it.
#[derive(Debug)]
pub struct RoleDto {
    pub id: i64,
    pub name: String,
    pub system_prompt: String,
    pub is_active: bool,
}

/// The view of a role.
pub struct RoleView {
    pub id: i64,
    pub name: Seq<char>,
    pub prompt: Seq<char>,
    pub is_active: bool,
}

impl View for RoleDto {
    type V = RoleView;

    open spec fn view(&self) -> RoleView {
        RoleView { id: self.id, name: self.name@, prompt: self.system_prompt@, is_active: self.is_active }
    }
}

/// The views of a list of roles.
pub open spec fn roles_view(v: Seq<RoleDto>) -> Seq<RoleView> {
    v.map_values(|r: RoleDto| r@)
}

/// The ids of a list of roles.
pub open spec fn role_ids(v: Seq<RoleView>) -> Seq<i64> {
    v.map_values(|r: RoleView| r.id)
}

/// A role once `active` was activated: only the role with its id is active,
/// and that one takes the name and prompt the server sent back.
pub open spec fn activated(r: RoleView, active: RoleView) -> RoleView {
    if r.id == active.id {
        RoleView { id: r.id, name: active.name, prompt: active.prompt, is_active: true }
    } else {
        RoleView { is_active: false, ..r }
    }
}

/// The list once `active` was activated.
pub open spec fn roles_after_activation(roles: Seq<RoleView>, active: RoleView) -> Seq<RoleView> {
    roles.map_values(|r: RoleView| activated(r, active))
}

/// The list once `created` was created and `active` activated: the new role
/// is listed first unless it already is listed.
pub open spec fn roles_after_create(roles: Seq<RoleView>, created: RoleView, active: RoleView) -> Seq<RoleView> {
    let listed = if role_ids(roles).contains(created.id) {
        roles
    } else {
        seq![created] + roles
    };
    roles_after_activation(listed, active)
}

/// The list once `updated` was saved: every entry with its id is replaced.
pub open spec fn roles_after_update(roles: Seq<RoleView>, updated: RoleView) -> Seq<RoleView> {
    roles.map_values(|r: RoleView| if r.id == updated.id {
        updated
    } else {
        r
    })
}

/// A copy of a role.
pub fn copy_role(r: &RoleDto) -> (c: RoleDto)
    ensures
        c@ == r@,
{
    RoleDto { id: r.id, name: r.name.clone(), system_prompt: r.system_prompt.clone(), is_active: r.is_active }
}

/// Marks `active` as the only active role, with the name and prompt the
/// server sent back.
pub fn apply_activation(roles: &mut Vec<RoleDto>, active: &RoleDto)
    ensures
        roles_view(final(roles)@) == roles_after_activation(roles_view(old(roles)@), active@),
{
    let ghost before = roles_view(roles@);
    let mut out: Vec<RoleDto> = Vec::new();
    let mut i: usize = 0;
    while i < roles.len()
        invariant
            i <= roles@.len(),
            before == roles_view(roles@),
            roles_view(out@) == before.take(i as int).map_values(|r: RoleView| activated(r, active@)),
        decreases roles.len() - i,
    {
        let r = &roles[i];
        let next = if r.id == active.id {
            RoleDto { id: r.id, name: active.name.clone(), system_prompt: active.system_prompt.clone(), is_active: true }
        } else {
            RoleDto { id: r.id, name: r.name.clone(), system_prompt: r.system_prompt.clone(), is_active: false }
        };
        let ghost prev = out@;
        assert(before[i as int] == roles@[i as int]@);
        out.push(next);
        assert(roles_view(out@) =~= roles_view(prev).push(next@));
        assert(before.take(i + 1).map_values(|r: RoleView| activated(r, active@)) =~= before.take(
            i as int,
        ).map_values(|r: RoleView| activated(r, active@)).push(activated(before[i as int], active@)));
        i += 1;
    }
    assert(before.take(before.len() as int) =~= before);
    *roles = out;
}

/// Whether a role with id `id` is listed.
pub fn has_role(roles: &Vec<RoleDto>, id: i64) -> (r: bool)
    ensures
        r == role_ids(roles_view(roles@)).contains(id),
{
    let ghost ids = role_ids(roles_view(roles@));
    let mut i: usize = 0;
    while i < roles.len()
        invariant
            i <= roles@.len(),
            ids == role_ids(roles_view(roles@)),
            forall|k: int| 0 <= k < i ==> ids[k] != id,
        decreases roles.len() - i,
    {
        if roles[i].id == id {
            assert(ids[i as int] == id);
            return true;
        }
        i += 1;
    }
    false
}

/// Lists a role the server created (first, unless it is listed already) and
/// marks `active` as the only active role.
pub fn apply_created_role(roles: &mut Vec<RoleDto>, created: &RoleDto, active: &RoleDto)
    ensures
        roles_view(final(roles)@) == roles_after_create(roles_view(old(roles)@), created@, active@),
{
    let ghost before = roles_view(roles@);
    if !has_role(roles, created.id) {
        roles.insert(0, copy_role(created));
        assert(roles_view(roles@) =~= seq![created@] + before);
    }
    apply_activation(roles, active);
}

/// Replaces every listed role with the id of `updated`; returns whether the
/// updated role is the active one (its prompt is then also the persona).
pub fn apply_updated_role(roles: &mut Vec<RoleDto>, updated: &RoleDto) -> (is_active: bool)
    ensures
        roles_view(final(roles)@) == roles_after_update(roles_view(old(roles)@), updated@),
        is_active == exists|k: int|
            0 <= k < final(roles)@.len() && (#[trigger] final(roles)@[k]).id == updated.id
                && final(roles)@[k].is_active,
{
    let ghost before = roles_view(roles@);
    let ghost f = |r: RoleView| if r.id == updated@.id {
        updated@
    } else {
        r
    };
    let mut out: Vec<RoleDto> = Vec::new();
    let mut i: usize = 0;
    while i < roles.len()
        invariant
            i <= roles@.len(),
            before == roles_view(roles@),
            f == (|r: RoleView| if r.id == updated@.id {
                updated@
            } else {
                r
            }),
            roles_view(out@) == before.take(i as int).map_values(f),
        decreases roles.len() - i,
    {
        let next = if roles[i].id == updated.id {
            copy_role(updated)
        } else {
            copy_role(&roles[i])
        };
        let ghost prev = out@;
        assert(before[i as int] == roles@[i as int]@);
        out.push(next);
        assert(roles_view(out@) =~= roles_view(prev).push(next@));
        assert(before.take(i + 1).map_values(f) =~= before.take(i as int).map_values(f).push(f(before[i as int])));
        i += 1;
    }
    assert(before.take(before.len() as int) =~= before);
    *roles = out;
    assert(roles_view(roles@) =~= roles_after_update(before, updated@));
    let ghost after = roles@;
    let mut j: usize = 0;
    while j < roles.len()
        invariant
            j <= roles@.len(),
            after == roles@,
            roles_view(roles@) == roles_after_update(before, updated@),
            before == roles_view(old(roles)@),
            forall|k: int| 0 <= k < j ==> !((#[trigger] roles@[k]).id == updated.id && roles@[k].is_active),
        decreases roles.len() - j,
    {
        if roles[j].id == updated.id && roles[j].is_active {
            return true;
        }
        j += 1;
    }
    false
}

/// Which role the editor shows after the list was reloaded: unchanged while
/// the edited role is still listed (or none is edited); else the active
/// role, or the first, or none.
pub enum EditorChoice {
    Keep,
    Switch(RoleDto),
    Clear,
}

/// The position of the first active role at or after `i`.
pub open spec fn first_active(roles: Seq<RoleView>, i: int) -> Option<int>
    decreases roles.len() - i,
{
    if i < 0 || i >= roles.len() {
        None
    } else if roles[i].is_active {
        Some(i)
    } else {
        first_active(roles, i + 1)
    }
}

/// The role the editor falls back to: the first active one, else the first.
pub open spec fn fallback_role(roles: Seq<RoleView>) -> Option<RoleView> {
    match first_active(roles, 0) {
        Some(k) => Some(roles[k]),
        None => if roles.len() > 0 {
            Some(roles[0])
        } else {
            None
        },
    }
}

/// What the editor shows after the list was reloaded.
pub open spec fn editor_after_reload(roles: Seq<RoleView>, editing: Option<i64>) -> Option<Option<RoleView>> {
    match editing {
        Some(eid) => if role_ids(roles).contains(eid) {
            None
        } else {
            Some(fallback_role(roles))
        },
        None => None,
    }
}

proof fn lemma_first_active(roles: Seq<RoleView>, i: int)
    requires
        0 <= i,
    ensures
        first_active(roles, i) matches Some(k) ==> i <= k < roles.len() && roles[k].is_active,
    decreases roles.len() - i,
{
    if 0 <= i < roles.len() && !roles[i].is_active {
        lemma_first_active(roles, i + 1);
    }
}

/// The role the editor shows after the list was reloaded (for instance
/// after a role was deleted), with `editing` the id of the role it showed.
pub fn choose_editor_role(roles: &Vec<RoleDto>, editing: Option<i64>) -> (r: EditorChoice)
    ensures
        match editor_after_reload(roles_view(roles@), editing) {
            None => r is Keep,
            Some(None) => r is Clear,
            Some(Some(role)) => r matches EditorChoice::Switch(c) && c@ == role,
        },
{
    let ghost rv = roles_view(roles@);
    match editing {
        None => EditorChoice::Keep,
        Some(eid) => {
            if has_role(roles, eid) {
                return EditorChoice::Keep;
            }
            let mut i: usize = 0;
            while i < roles.len()
                invariant
                    i <= roles@.len(),
                    rv == roles_view(roles@),
                    editing == Some(eid),
                    !role_ids(rv).contains(eid),
                    first_active(rv, 0) == first_active(rv, i as int),
                decreases roles.len() - i,
            {
                if roles[i].is_active {
                    assert(rv[i as int] == roles@[i as int]@);
                    return EditorChoice::Switch(copy_role(&roles[i]));
                }
                i += 1;
            }
            if roles.len() > 0 {
                EditorChoice::Switch(copy_role(&roles[0]))
            } else {
                EditorChoice::Clear
            }
        },
    }
}

/// The role the editor opens when the list first loads: the active one.
pub fn initially_active_role(roles: &Vec<RoleDto>) -> (r: Option<RoleDto>)
    ensures
        match first_active(roles_view(roles@), 0) {
            Some(k) => r matches Some(c) && c@ == roles_view(roles@)[k],
            None => r is None,
        },
{
    let ghost rv = roles_view(roles@);
    let mut i: usize = 0;
    while i < roles.len()
        invariant
            i <= roles@.len(),
            rv == roles_view(roles@),
            first_active(rv, 0) == first_active(rv, i as int),
        decreases roles.len() - i,
    {
        if roles[i].is_active {
            return Some(copy_role(&roles[i]));
        }
        i += 1;
    }
    None
}

// ---------------------------------------------------------------------------
// Laws
// ---------------------------------------------------------------------------

/// After an activation, a role is active exactly when it has the activated
/// id, and the list keeps its ids and order.
pub proof fn law_activation_leaves_one_active(roles: Seq<RoleView>, active: RoleView, k: int)
    requires
        0 <= k < roles.len(),
    ensures
        roles_after_activation(roles, active)[k].is_active <==> roles[k].id == active.id,
        role_ids(roles_after_activation(roles, active)) == role_ids(roles),
{
    assert(role_ids(roles_after_activation(roles, active)) =~= role_ids(roles));
}

/// A created and activated role is listed, active, and is the only active
/// one.
pub proof fn law_created_role_is_listed_active(roles: Seq<RoleView>, created: RoleView)
    ensures
        role_ids(roles_after_create(roles, created, created)).contains(created.id),
        forall|k: int|
            0 <= k < roles_after_create(roles, created, created).len() ==> (#[trigger] roles_after_create(
                roles,
                created,
                created,
            )[k].is_active <==> roles_after_create(roles, created, created)[k].id == created.id),
{
    let listed = if role_ids(roles).contains(created.id) {
        roles
    } else {
        seq![created] + roles
    };
    let after = roles_after_create(roles, created, created);
    assert(role_ids(after) =~= role_ids(listed));
    if !role_ids(roles).contains(created.id) {
        assert(role_ids(listed)[0] == created.id);
    }
}

/// After a reload, the editor never stays on a role that is gone: it keeps
/// a listed role, or switches to a listed one, or shows none only when the
/// list is empty.
pub proof fn law_editor_never_shows_deleted_role(roles: Seq<RoleView>, editing: Option<i64>)
    ensures
        match editor_after_reload(roles, editing) {
            None => editing matches Some(eid) ==> role_ids(roles).contains(eid),
            Some(None) => roles.len() == 0,
            Some(Some(r)) => roles.contains(r),
        },
{
    lemma_first_active(roles, 0);
    match first_active(roles, 0) {
        Some(k) => assert(roles[k] == roles[k]),
        None => {},
    }
}

// ---------------------------------------------------------------------------
// Polishing the persona prompt
// ---------------------------------------------------------------------------

/// The hint when polishing is asked for without a prompt.
pub open spec fn need_prompt_hint() -> Seq<char> {
    "请先填写人格提示词，再使用 AI 润色。"@
}

/// The hint when polishing is asked for without a chosen model.
pub open spec fn need_model_hint() -> Seq<char> {
    "请先在聊天栏选择模型，再使用 AI 润色。"@
}

/// The hint after the prompt was polished.
pub open spec fn polished_hint() -> Seq<char> {
    "AI 润色完成，可继续调整后保存人格。"@
}

/// The hint after the persona was saved.
pub open spec fn saved_hint() -> Seq<char> {
    "人格设定已保存。"@
}

/// How a request to polish the persona prompt starts.
pub enum PolishStart {
    /// Nothing to send; show this hint.
    Refused(String),
    /// Send the trimmed prompt to the trimmed model.
    Send { prompt: String, model: String },
}

/// How a request to polish the prompt starts: it needs a prompt, then a
/// model.
pub fn polish_start(prompt: &str, model: &str) -> (r: PolishStart)
    ensures
        trim(prompt@).len() == 0 ==> (r matches PolishStart::Refused(h) && h@ == need_prompt_hint()),
        trim(prompt@).len() > 0 && trim(model@).len() == 0 ==> (r matches PolishStart::Refused(h) && h@
            == need_model_hint()),
        trim(prompt@).len() > 0 && trim(model@).len() > 0 ==> (r matches PolishStart::Send { prompt: p, model: m }
            && p@ == trim(prompt@) && m@ == trim(model@)),
{
    let p = trim_str(prompt);
    if p.as_str().is_empty() {
        return PolishStart::Refused("请先填写人格提示词，再使用 AI 润色。".to_string());
    }
    let m = trim_str(model);
    if m.as_str().is_empty() {
        return PolishStart::Refused("请先在聊天栏选择模型，再使用 AI 润色。".to_string());
    }
    PolishStart::Send { prompt: p, model: m }
}

/// After the polish answered: the new prompt on success, and the hint.
pub fn polish_finish(result: Result<String, String>) -> (r: (Option<String>, String))
    ensures
        match result {
            Ok(p) => (r.0 matches Some(q) && q@ == p@) && r.1@ == polished_hint(),
            Err(e) => r.0 is None && r.1@ == "AI 润色失败："@ + e@,
        },
{
    match result {
        Ok(p) => (Some(p), "AI 润色完成，可继续调整后保存人格。".to_string()),
        Err(e) => (None, crate::text::concat("AI 润色失败：", e.as_str())),
    }
}

/// Whether a persona hint reports success (it is then shown as such).
pub fn persona_hint_is_ok(hint: &str) -> (r: bool)
    ensures
        r == (hint@ == polished_hint() || hint@ == saved_hint()),
{
    str_eq(hint, "AI 润色完成，可继续调整后保存人格。") || str_eq(hint, "人格设定已保存。")
}

} // verus!
