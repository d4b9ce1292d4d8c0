use pusa_ui::tabs::{
    center_active_kind, center_close_tab, center_open_or_focus, center_tab_display_path,
    center_tab_file_path, center_tab_plugin_key, center_tab_skill_key, load_center_session_restore,
    persist_center_session, retain_tabs, retain_tabs_under_root, selections_after_close, trace_edit_tab, CenterTab, CenterTabCacheEntry, CenterTabKind,
    CenterTabKindCache, CenterTabsCache,
};

fn ids(tabs: &[CenterTab]) -> Vec<&str> {
    tabs.iter().map(|t| t.id.as_str()).collect()
}

#[test]
fn tab_constructors_name_their_ids() {
    assert_eq!(CenterTab::role().id, "role");
    assert_eq!(CenterTab::skill_installed("s".into(), "S".into()).id, "skill:installed:s");
    assert_eq!(CenterTab::skill_market("k".into(), "K".into()).id, "skill:market:k");
    assert_eq!(CenterTab::plugin("p".into(), "P".into()).id, "plugin:p");
    let f = CenterTab::file("/ws/a.rs".into());
    assert_eq!(f.id, "file:/ws/a.rs");
    assert_eq!(f.title, "a.rs");
    let d = CenterTab::file_diff("t9".into(), "/ws/a.rs".into(), "x".into(), "y".into());
    assert_eq!(d.id, "file-diff:t9");
    assert_eq!(d.title, "编辑 · a.rs");
    assert_eq!(center_tab_display_path(&d.kind).as_deref(), Some("/ws/a.rs"));
    assert_eq!(center_tab_file_path(&d.kind), None);
}

#[test]
fn open_focus_and_close() {
    let mut tabs = Vec::new();
    let mut active = None;
    center_open_or_focus(&mut tabs, &mut active, CenterTab::role());
    center_open_or_focus(&mut tabs, &mut active, CenterTab::plugin("p".into(), "P".into()));
    center_open_or_focus(&mut tabs, &mut active, CenterTab::file("/a".into()));
    assert_eq!(ids(&tabs), vec!["role", "plugin:p", "file:/a"]);
    center_open_or_focus(&mut tabs, &mut active, CenterTab::plugin("p".into(), "New".into()));
    assert_eq!(ids(&tabs), vec!["role", "plugin:p", "file:/a"]);
    assert_eq!(tabs[1].title, "New");
    assert_eq!(active.as_deref(), Some("plugin:p"));
    let closed = center_close_tab(&mut tabs, &mut active, "plugin:p").unwrap();
    assert_eq!(closed.id, "plugin:p");
    assert_eq!(active.as_deref(), Some("file:/a"));
    assert!(center_close_tab(&mut tabs, &mut active, "nope").is_none());
    center_close_tab(&mut tabs, &mut active, "file:/a");
    assert_eq!(active.as_deref(), Some("role"));
    center_close_tab(&mut tabs, &mut active, "role");
    assert_eq!(active, None);
}

#[test]
fn active_kind_keys() {
    let tabs = vec![CenterTab::skill_market("k".into(), "K".into())];
    let kind = center_active_kind(&tabs, &Some("skill:market:k".into())).unwrap();
    assert_eq!(center_tab_skill_key(&kind).as_deref(), Some("k"));
    assert_eq!(center_tab_plugin_key(&kind), None);
    assert!(center_active_kind(&tabs, &Some("x".into())).is_none());
}

#[test]
fn session_round_trip() {
    let tabs = vec![
        CenterTab::file_diff("t".into(), "/a".into(), "x".into(), "y".into()),
        CenterTab::file("/ws/b.rs".into()),
        CenterTab::plugin("p".into(), "P".into()),
    ];
    assert!(persist_center_session(&vec![CenterTab::file_diff("t".into(), "/a".into(), "x".into(), "y".into())], &None).is_none());
    let cache = persist_center_session(&tabs, &Some("file-diff:t".into())).unwrap();
    assert_eq!(cache.tabs.len(), 2);
    assert_eq!(cache.active_id, None);
    let cache2 = persist_center_session(&tabs, &Some("plugin:p".into())).unwrap();
    let restored = load_center_session_restore(Some(cache2));
    assert_eq!(ids(&restored.tabs), vec!["file:/ws/b.rs", "plugin:p"]);
    assert_eq!(restored.active_id.as_deref(), Some("plugin:p"));
    assert_eq!(restored.selected_plugin_key.as_deref(), Some("p"));
    let restored = load_center_session_restore(Some(cache));
    assert_eq!(restored.active_id.as_deref(), Some("file:/ws/b.rs"));
    assert_eq!(restored.selected_file_path.as_deref(), Some("/ws/b.rs"));
    assert!(load_center_session_restore(None).tabs.is_empty());
    let raw = CenterTabsCache {
        tabs: vec![CenterTabCacheEntry {
            id: "skill:installed:s".into(),
            title: "S".into(),
            kind: CenterTabKindCache::SkillInstalled { slug: "s".into() },
        }],
        active_id: Some("gone".into()),
    };
    let restored = load_center_session_restore(Some(raw));
    assert_eq!(restored.active_id.as_deref(), Some("skill:installed:s"));
    assert_eq!(restored.selected_skill_key.as_deref(), Some("s"));
    assert_eq!(restored.tabs[0].kind, CenterTabKind::SkillInstalled { slug: "s".into() });
}

#[test]
fn tabs_outside_the_new_root_are_closed() {
    let mut tabs = vec![
        CenterTab::role(),
        CenterTab::file("/old/a".into()),
        CenterTab::file("/new/b".into()),
    ];
    let mut active = Some("file:/old/a".to_string());
    retain_tabs(&mut tabs, &mut active, &vec![true, false, true]);
    assert_eq!(ids(&tabs), vec!["role", "file:/new/b"]);
    assert_eq!(active.as_deref(), Some("role"));
}

#[test]
fn opening_a_project_keeps_tabs_under_its_root() {
    let mut tabs = vec![
        CenterTab::role(),
        CenterTab::file_titled("/old/a.rs".to_string(), "a.rs".to_string()),
        CenterTab::file_titled("/proj/src/b.rs".to_string(), "b.rs".to_string()),
        CenterTab::plugin("k".to_string(), "Plugin".to_string()),
    ];
    let old_file_id = tabs[1].id.clone();
    let mut active = Some(old_file_id);
    retain_tabs_under_root(&mut tabs, &mut active, "/proj");
    assert_eq!(tabs.len(), 3);
    assert!(matches!(tabs[0].kind, CenterTabKind::Role));
    assert!(matches!(&tabs[1].kind, CenterTabKind::File { path } if path == "/proj/src/b.rs"));
    assert!(matches!(tabs[2].kind, CenterTabKind::Plugin { .. }));
    assert_eq!(active.as_deref(), Some("role"));
}

#[test]
fn trace_edit_opens_diff_or_file() {
    let t = trace_edit_tab("a.rs".into(), "/w/a.rs".into(), "t1".into(), "old".into(), "new".into()).unwrap();
    assert_eq!(t.id, "file-diff:t1");
    assert!(matches!(&t.kind, CenterTabKind::FileDiff { path, .. } if path == "/w/a.rs"));
    let f = trace_edit_tab("b.rs".into(), String::new(), "t2".into(), String::new(), String::new()).unwrap();
    assert_eq!(f.id, "file:b.rs");
    assert!(trace_edit_tab(String::new(), String::new(), "t3".into(), "x".into(), String::new()).is_none());
}

#[test]
fn closing_a_tab_moves_sidebar_selection() {
    let closed = CenterTab::skill_installed("weather".into(), "Weather".into());
    let mut skill = Some("weather".to_string());
    let mut plugin = Some("p1".to_string());
    let next = Some(CenterTabKind::Plugin { key: "p2".into() });
    let forget = selections_after_close(&closed, &next, &mut skill, &mut plugin);
    assert_eq!(skill, None);
    assert_eq!(plugin.as_deref(), Some("p2"));
    assert_eq!(forget, None);
    let file = CenterTab::file("/w/a.rs".into());
    let mut skill = Some("other".to_string());
    let mut plugin = None;
    let next = Some(CenterTabKind::SkillMarket { key: "m".into() });
    let forget = selections_after_close(&file, &next, &mut skill, &mut plugin);
    assert_eq!(forget.as_deref(), Some("/w/a.rs"));
    assert_eq!(skill.as_deref(), Some("m"));
    let mut keep = Some("other".to_string());
    let mut none = None;
    selections_after_close(&closed, &None, &mut keep, &mut none);
    assert_eq!(keep.as_deref(), Some("other"));
}
