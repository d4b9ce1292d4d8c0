use pusa_ui::keys::{
    console_shortcut, console_shortcut_for, is_mod_char_shortcut, is_primary_modifier, is_save_shortcut,
    shortcut_matches, ConsoleShortcut, KeyPress,
};

fn press(typed: Option<&str>, super_key: bool, control: bool, meta: bool) -> KeyPress {
    KeyPress { typed: typed.map(|t| t.to_string()), super_key, control, meta }
}

fn ctrl(ch: &str) -> KeyPress {
    press(Some(ch), false, true, false)
}

#[test]
fn save_needs_primary_modifier_and_s() {
    assert!(is_save_shortcut(&ctrl("S")));
    assert!(is_save_shortcut(&press(Some("S"), true, false, false)));
    assert!(is_save_shortcut(&press(Some("S"), false, false, true)));
    // Alt or Shift alone is no primary modifier.
    assert!(!is_save_shortcut(&press(Some("S"), false, false, false)));
    // A non-character key (Enter) never makes the shortcut.
    assert!(!is_save_shortcut(&press(None, false, true, false)));
    assert!(is_mod_char_shortcut(&ctrl("k"), "K"));
    assert!(!is_primary_modifier(&press(None, false, false, false)));
    assert!(is_primary_modifier(&press(None, false, false, true)));
    assert!(shortcut_matches(&Some("s".to_string()), "S", true));
    assert!(!shortcut_matches(&None, "s", true));
}

#[test]
fn console_shortcuts_open_and_create() {
    assert_eq!(console_shortcut(&ctrl("o"), false, true, false), Some(ConsoleShortcut::OpenProject));
    assert_eq!(
        console_shortcut(&press(Some("J"), true, false, false), false, true, false),
        Some(ConsoleShortcut::CreateApplication)
    );
    assert_eq!(console_shortcut(&ctrl("e"), false, true, false), Some(ConsoleShortcut::CreateExtensionPlugin));
    assert_eq!(console_shortcut(&ctrl("x"), false, true, false), None);
    assert_eq!(console_shortcut(&press(Some("o"), false, false, false), false, true, false), None);
    assert_eq!(console_shortcut(&ctrl("o"), true, true, false), None);
}

#[test]
fn console_shortcuts_blocked_by_tabs_or_dialogs() {
    let o = Some("o".to_string());
    assert_eq!(console_shortcut_for(&o, true, true, true, false), None);
    assert_eq!(console_shortcut_for(&o, true, false, false, false), None);
    assert_eq!(console_shortcut_for(&o, true, false, true, true), None);
    assert_eq!(console_shortcut_for(&o, true, false, true, false), Some(ConsoleShortcut::OpenProject));
}
