use pusa_ui::llm_enabled::{
    activate_id_after_toggle, enabled_after_delete, enabled_after_toggle, enabled_after_upsert,
    overlay_enabled_credential_ids, bump_llm_models_refresh, LlmModelsRefresh,
};

fn v(xs: &[&str]) -> Vec<String> {
    xs.iter().map(|s| s.to_string()).collect()
}

#[test]
fn overlay_keeps_known_saved_ids() {
    let known = v(&["a", "b", "c"]);
    assert_eq!(overlay_enabled_credential_ids(Some(v(&["c", "x", "a"])), &known, "b"), v(&["c", "a"]));
    assert_eq!(overlay_enabled_credential_ids(None, &known, " b "), v(&["b"]));
    assert_eq!(overlay_enabled_credential_ids(None, &known, "z"), v(&[]));
    assert_eq!(overlay_enabled_credential_ids(None, &known, "  "), v(&[]));
}

#[test]
fn toggle_moves_id_to_end_or_drops_it() {
    let cur = v(&["a", "b", "c"]);
    assert_eq!(enabled_after_toggle(&cur, "a", true), v(&["b", "c", "a"]));
    assert_eq!(enabled_after_toggle(&cur, "b", false), v(&["a", "c"]));
    let once = enabled_after_toggle(&cur, "d", true);
    assert_eq!(enabled_after_toggle(&once, "d", true), once);
}

#[test]
fn upsert_and_delete_follow_known_credentials() {
    let prev_enabled = v(&["a", "gone"]);
    let prev_ids = v(&["a", "gone", "b"]);
    let new_ids = v(&["a", "b", "n1", "n2"]);
    assert_eq!(enabled_after_upsert(&prev_enabled, &prev_ids, &new_ids), v(&["a", "n1", "n2"]));
    assert_eq!(enabled_after_delete(&v(&["a", "b", "c"]), &v(&["c", "a"])), v(&["a", "c"]));
}

#[test]
fn activation_after_toggle() {
    let enabled = v(&["a", "b"]);
    assert_eq!(activate_id_after_toggle(&enabled, "", "b", true), Some("b".to_string()));
    assert_eq!(activate_id_after_toggle(&enabled, "a", "b", true), None);
    assert_eq!(activate_id_after_toggle(&enabled, "z", "b", true), Some("b".to_string()));
    assert_eq!(activate_id_after_toggle(&enabled, "b", "b", false), Some("a".to_string()));
    assert_eq!(activate_id_after_toggle(&v(&[]), "b", "b", false), None);
    assert_eq!(activate_id_after_toggle(&enabled, "a", "b", false), None);
}

#[test]
fn models_refresh_bump_counts_up() {
    let mut tick = LlmModelsRefresh(0);
    bump_llm_models_refresh(&mut tick);
    bump_llm_models_refresh(&mut tick);
    assert_eq!(tick.0, 2);
}
