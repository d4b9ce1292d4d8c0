use pusa_ui::roles::{
    apply_activation, apply_created_role, apply_updated_role, choose_editor_role, initially_active_role,
    persona_hint_is_ok, polish_finish, polish_start, EditorChoice, PolishStart, RoleDto,
};

fn role(id: i64, name: &str, active: bool) -> RoleDto {
    RoleDto { id, name: name.to_string(), system_prompt: format!("prompt {id}"), is_active: active }
}

fn summary(roles: &[RoleDto]) -> Vec<(i64, String, bool)> {
    roles.iter().map(|r| (r.id, r.name.clone(), r.is_active)).collect()
}

#[test]
fn activation_leaves_one_role_active() {
    let mut roles = vec![role(1, "A", true), role(2, "B", false), role(3, "C", false)];
    let server = RoleDto { id: 2, name: "B2".into(), system_prompt: "new".into(), is_active: true };
    apply_activation(&mut roles, &server);
    assert_eq!(
        summary(&roles),
        vec![(1, "A".to_string(), false), (2, "B2".to_string(), true), (3, "C".to_string(), false)]
    );
    assert_eq!(roles[1].system_prompt, "new");
}

#[test]
fn created_role_goes_first_and_active() {
    let mut roles = vec![role(1, "A", true)];
    let created = role(9, "新角色 2", false);
    let active = role(9, "新角色 2", true);
    apply_created_role(&mut roles, &created, &active);
    assert_eq!(summary(&roles), vec![(9, "新角色 2".to_string(), true), (1, "A".to_string(), false)]);
    apply_created_role(&mut roles, &created, &active);
    assert_eq!(roles.len(), 2);
}

#[test]
fn updated_role_replaced_and_reports_active() {
    let mut roles = vec![role(1, "A", true), role(2, "B", false)];
    let is_active = apply_updated_role(&mut roles, &RoleDto { id: 2, name: "B'".into(), system_prompt: "p".into(), is_active: false });
    assert!(!is_active);
    assert_eq!(roles[1].name, "B'");
    let is_active = apply_updated_role(&mut roles, &RoleDto { id: 1, name: "A'".into(), system_prompt: "q".into(), is_active: true });
    assert!(is_active);
    assert_eq!(roles[0].system_prompt, "q");
}

#[test]
fn editor_moves_off_a_deleted_role() {
    let roles = vec![role(1, "A", false), role(2, "B", true)];
    assert!(matches!(choose_editor_role(&roles, Some(1)), EditorChoice::Keep));
    assert!(matches!(choose_editor_role(&roles, None), EditorChoice::Keep));
    match choose_editor_role(&roles, Some(7)) {
        EditorChoice::Switch(r) => assert_eq!(r.id, 2),
        _ => panic!("expected a switch"),
    }
    let inactive = vec![role(4, "D", false), role(5, "E", false)];
    match choose_editor_role(&inactive, Some(7)) {
        EditorChoice::Switch(r) => assert_eq!(r.id, 4),
        _ => panic!("expected a switch"),
    }
    assert!(matches!(choose_editor_role(&vec![], Some(7)), EditorChoice::Clear));
}

#[test]
fn initial_role_is_the_active_one() {
    assert_eq!(initially_active_role(&vec![role(1, "A", false), role(2, "B", true)]).map(|r| r.id), Some(2));
    assert!(initially_active_role(&vec![role(1, "A", false)]).is_none());
}

#[test]
fn persona_polish_needs_prompt_then_model() {
    assert!(matches!(polish_start("  ", "gpt"), PolishStart::Refused(h) if h == "请先填写人格提示词，再使用 AI 润色。"));
    assert!(matches!(polish_start("be kind", " "), PolishStart::Refused(h) if h == "请先在聊天栏选择模型，再使用 AI 润色。"));
    match polish_start(" be kind ", " gpt ") {
        PolishStart::Send { prompt, model } => {
            assert_eq!(prompt, "be kind");
            assert_eq!(model, "gpt");
        }
        _ => panic!("expected a request"),
    }
}

#[test]
fn persona_polish_outcomes() {
    let (p, hint) = polish_finish(Ok("better".into()));
    assert_eq!(p.as_deref(), Some("better"));
    assert!(persona_hint_is_ok(&hint));
    let (p, hint) = polish_finish(Err("timeout".into()));
    assert!(p.is_none());
    assert_eq!(hint, "AI 润色失败：timeout");
    assert!(!persona_hint_is_ok(&hint));
    assert!(persona_hint_is_ok("人格设定已保存。"));
}
