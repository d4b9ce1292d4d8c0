use pusa_ui::dev_mode::{
    developer_mode_file_body, developer_mode_from_file, developer_mode_script, triple_click_step,
    toggle, apply, DeveloperMode, TRIPLE_CLICKS,
};

#[test]
fn developer_mode_file_reads_one_as_on() {
    assert!(developer_mode_from_file(Some("1\n".to_string())));
    assert!(developer_mode_from_file(Some("  1 ".to_string())));
    assert!(!developer_mode_from_file(Some("0".to_string())));
    assert!(!developer_mode_from_file(Some("11".to_string())));
    assert!(!developer_mode_from_file(Some(String::new())));
    assert!(!developer_mode_from_file(None));
}

#[test]
fn developer_mode_file_round_trip() {
    let body = developer_mode_file_body(true);
    assert_eq!(body.as_deref(), Some("1\n"));
    assert!(developer_mode_from_file(body));
    assert_eq!(developer_mode_file_body(false), None);
}

#[test]
fn developer_mode_script_toggles_body_class() {
    let on = developer_mode_script(true);
    assert!(on.contains("if (1 === 1) b.classList.add('ac-developer-mode');"));
    let off = developer_mode_script(false);
    assert!(off.contains("if (0 === 1)"));
    assert!(off.starts_with("(() => {\n  const b = document.body;"));
    assert!(off.ends_with("})()"));
}

#[test]
fn three_quick_clicks_fire_once() {
    assert_eq!(TRIPLE_CLICKS, 3);
    let a = triple_click_step(0, false);
    assert_eq!((a.count, a.fire), (1, false));
    let b = triple_click_step(a.count, true);
    assert_eq!((b.count, b.fire), (2, false));
    let c = triple_click_step(b.count, true);
    assert_eq!((c.count, c.fire), (0, true));
}

#[test]
fn slow_click_restarts_the_series() {
    let a = triple_click_step(2, false);
    assert_eq!((a.count, a.fire), (1, false));
    let b = triple_click_step(u32::MAX, true);
    assert_eq!((b.count, b.fire), (0, true));
}

#[test]
fn toggle_flips_and_reports_the_new_state() {
    let mut mode = DeveloperMode(false);
    assert!(toggle(&mut mode));
    assert!(mode.0);
    assert!(!toggle(&mut mode));
    assert!(!mode.0);
}

#[test]
fn apply_sets_the_given_state() {
    let mut mode = DeveloperMode(true);
    apply(true, &mut mode);
    assert!(mode.0);
    apply(false, &mut mode);
    assert!(!mode.0);
}
