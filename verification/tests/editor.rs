use pusa_ui::editor::EditorBuffers;

#[test]
fn edits_mark_and_saves_clear_dirty() {
    let mut b = EditorBuffers::new();
    assert!(b.needs_load("/a"));
    b.load_result("/a", Ok("one".to_string()));
    assert!(!b.needs_load("/a"));
    assert!(!b.is_dirty("/a"));
    b.edit("/a", "two".to_string());
    assert!(b.is_dirty("/a"));
    b.edit("/a", "one".to_string());
    assert!(!b.is_dirty("/a"));
    b.edit("/a", "three".to_string());
    let body = b.save_body("/a").unwrap();
    assert_eq!(body, "three");
    assert_eq!(b.save_result("/a", body.clone(), Err("disk full".to_string())), "disk full");
    assert!(b.is_dirty("/a"));
    assert_eq!(b.save_result("/a", body, Ok(())), "已保存");
    assert!(!b.is_dirty("/a"));
    b.edit("/a", "three".to_string());
    assert!(!b.is_dirty("/a"));
}

#[test]
fn read_errors_and_forgetting() {
    let mut b = EditorBuffers::new();
    b.load_result("/bad", Err("denied".to_string()));
    assert!(!b.needs_load("/bad"));
    b.load_result("/a", Ok("x".to_string()));
    b.edit("/a", "y".to_string());
    b.fs_forget_open_file("/a");
    b.fs_forget_open_file("/bad");
    assert!(b.needs_load("/a"));
    assert!(b.needs_load("/bad"));
    assert!(!b.is_dirty("/a"));
    assert!(b.save_body("/a").is_none());
}

#[test]
fn replaced_files_take_their_new_text() {
    let mut b = EditorBuffers::new();
    b.load_result("/w/a.rs", Ok("old a".to_string()));
    b.load_result("/w/c.rs", Ok("old c".to_string()));
    b.apply_replaced(&vec![
        ("/w/a.rs".to_string(), "new a".to_string()),
        ("/w/b.rs".to_string(), "new b".to_string()),
    ]);
    assert_eq!(b.save_body("/w/a.rs").as_deref(), Some("new a"));
    assert_eq!(b.save_body("/w/b.rs").as_deref(), Some("new b"));
    assert_eq!(b.save_body("/w/c.rs").as_deref(), Some("old c"));
    // The new text is also the baseline: typing it again leaves nothing unsaved.
    b.edit("/w/a.rs", "new a".to_string());
    assert!(!b.is_dirty("/w/a.rs"));
}
