use pusa_ui::file_selection::{
    add_to_chat_label, clipboard_notice, menu_targets, paste_notice, paste_target, paste_target_from,
    rename_expanded, row_class, shift_click_select, sync_selection, terminal_dir, terminal_dir_from,
    toggle_expanded, expand_all,
};

fn v(items: &[&str]) -> Vec<String> {
    items.iter().map(|s| s.to_string()).collect()
}

fn sorted(mut x: Vec<String>) -> Vec<String> {
    x.sort();
    x
}

#[test]
fn toggle_opens_then_closes_a_folder() {
    let (open, opening) = toggle_expanded(&v(&["/w/a"]), "/w/b");
    assert!(opening);
    assert_eq!(open, v(&["/w/a", "/w/b"]));
    let (closed, opening) = toggle_expanded(&open, "/w/b");
    assert!(!opening);
    assert_eq!(closed, v(&["/w/a"]));
}

#[test]
fn rename_keeps_folder_expanded_under_new_path() {
    let e = v(&["/w/a", "/w/old", "/w/c"]);
    assert_eq!(sorted(rename_expanded(&e, "/w/old", "/w/new", true)), v(&["/w/a", "/w/c", "/w/new"]));
    assert_eq!(rename_expanded(&e, "/w/old", "/w/new", false), e);
    assert_eq!(rename_expanded(&e, "/w/old", "/w/a", true), v(&["/w/a", "/w/c"]));
}

#[test]
fn selection_follows_outside_primary() {
    let sel = v(&["/w/a", "/w/b"]);
    assert_eq!(sync_selection(&Some("/w/b".into()), &sel), sel);
    assert_eq!(sync_selection(&Some("/w/z".into()), &sel), v(&["/w/z"]));
    assert!(sync_selection(&None, &sel).is_empty());
}

#[test]
fn shift_click_selects_range_from_anchor() {
    let visible = v(&["/w/a", "/w/b", "/w/c", "/w/d"]);
    let r = shift_click_select(&visible, "/w/d", &Some("/w/b".into()), &v(&["/w/b"]));
    assert_eq!(r.selected, v(&["/w/b", "/w/c", "/w/d"]));
    assert_eq!(r.primary, "/w/d");
    let r = shift_click_select(&visible, "/w/a", &Some("/w/c".into()), &vec![]);
    assert_eq!(r.selected, v(&["/w/a", "/w/b", "/w/c"]));
}

#[test]
fn shift_click_falls_back_to_selection_then_click() {
    let visible = v(&["/w/a", "/w/b", "/w/c"]);
    let r = shift_click_select(&visible, "/w/c", &Some("/gone".into()), &v(&["/zz", "/w/b"]));
    assert_eq!(r.selected, v(&["/w/b", "/w/c"]));
    let r = shift_click_select(&visible, "/w/b", &None, &vec![]);
    assert_eq!(r.selected, v(&["/w/b"]));
    let r = shift_click_select(&visible, "/hidden", &Some("/w/a".into()), &vec![]);
    assert_eq!(r.selected, v(&["/hidden"]));
    assert_eq!(r.primary, "/hidden");
}

#[test]
fn menu_targets_use_multi_selection_in_tree_order() {
    let visible = v(&["/w/a", "/w/b", "/w/c"]);
    assert_eq!(menu_targets(&visible, "/w/c", &v(&["/w/c", "/w/a"])), v(&["/w/a", "/w/c"]));
    assert_eq!(menu_targets(&visible, "/w/b", &v(&["/w/c", "/w/a"])), v(&["/w/b"]));
    assert_eq!(menu_targets(&visible, "/w/b", &v(&["/w/b"])), v(&["/w/b"]));
}

#[test]
fn menu_labels_and_notices() {
    assert_eq!(add_to_chat_label(1, false), "加入 Chat");
    assert_eq!(add_to_chat_label(1, true), "加入新的 Chat");
    assert_eq!(add_to_chat_label(3, false), "将 3 个文件加入 Chat");
    assert_eq!(add_to_chat_label(12, true), "将 12 个文件加入新的 Chat");
    assert_eq!(clipboard_notice(1, true), "已剪切。");
    assert_eq!(clipboard_notice(0, false), "已复制。");
    assert_eq!(clipboard_notice(4, true), "已剪切 4 项。");
    assert_eq!(clipboard_notice(2, false), "已复制 2 项。");
    assert_eq!(paste_notice(None), "已粘贴。");
    assert_eq!(paste_notice(Some("磁盘已满".into())), "磁盘已满");
}

#[test]
fn paste_and_terminal_targets() {
    assert_eq!(paste_target_from("/w/d", true, None, "/w"), "/w/d");
    assert_eq!(paste_target_from("/w/d/f.txt", false, Some("/w/d".into()), "/w"), "/w/d");
    assert_eq!(paste_target_from("f.txt", false, None, "/w"), "/w");
    assert_eq!(paste_target("/w/d/f.txt", false, "/w"), "/w/d");
    assert_eq!(paste_target("/w/d", true, "/w"), "/w/d");
    assert_eq!(terminal_dir_from("/x", false, None), "/x");
    assert_eq!(terminal_dir("/w/d/f.txt", false), "/w/d");
    assert_eq!(terminal_dir("/w/d", true), "/w/d");
}

#[test]
fn row_classes_follow_flags() {
    assert_eq!(row_class(false, false, false), "ac-sidebar-files-row");
    assert_eq!(row_class(true, false, false), "ac-sidebar-files-row is-selected");
    assert_eq!(row_class(true, true, true), "ac-sidebar-files-row is-selected is-muted is-just-written");
    assert_eq!(row_class(false, true, true), "ac-sidebar-files-row is-muted is-just-written");
    assert_eq!(row_class(false, false, true), "ac-sidebar-files-row is-just-written");
}

#[test]
fn expand_all_adds_missing_folders_in_order() {
    let ex = vec!["/ws/a".to_string()];
    let dirs = vec!["/ws/a".to_string(), "/ws/a/b".to_string(), "/ws/a/b".to_string()];
    assert_eq!(expand_all(&ex, &dirs), vec!["/ws/a".to_string(), "/ws/a/b".to_string()]);
    assert_eq!(expand_all(&ex, &vec![]), ex);
}

#[test]
fn paste_and_terminal_at_the_top() {
    // A file directly under `/` pastes into `/`; the root itself has no parent.
    assert_eq!(paste_target("/f.txt", false, "/w"), "/");
    assert_eq!(paste_target("/", false, "/w"), "/w");
    assert_eq!(terminal_dir("/", false), "/");
    assert_eq!(terminal_dir("f.txt", false), "");
}
