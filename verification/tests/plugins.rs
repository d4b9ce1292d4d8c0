use pusa_ui::plugins::{
    filter_cards, refresh_installed_flags,
    absorb_reply, openvsx_failure_message, openvsx_status_failure, OpenVsxFailure,
    absorb_results, detail_description, detail_install_path, format_detail_meta, format_meta,
    is_highlight_text, language_meta_label, mark_catalog_installed, openvsx_search_plan,
    openvsx_search_url, plugin_glyph_class, plugin_glyph_url, plugin_initial,
    remove_catalog_card, resolve_ai_model, smart_ui_scan_report, sort_cards, sync_catalog,
    to_web_card, upsert_catalog, urlencoding_encode, OpenVsxFiles, OpenVsxItem, PluginCard,
};

fn card(id: &str, key: &str, stars: Option<u64>, hp: bool) -> PluginCard {
    PluginCard {
        id: id.to_string(),
        name: id.to_string(),
        description: String::new(),
        source_label: "Open VSX".to_string(),
        language: None,
        stars,
        mentions: None,
        homepage: String::new(),
        git_url: String::new(),
        installed: false,
        install_key: key.to_string(),
        highlight_priority: hp,
        version: None,
        icon_url: None,
    }
}

fn item(ns: &str, name: &str) -> OpenVsxItem {
    OpenVsxItem {
        namespace: ns.to_string(),
        name: name.to_string(),
        display_name: None,
        description: None,
        version: None,
        download_count: None,
        url: None,
        files: None,
        icon: None,
    }
}

#[test]
fn meta_lines() {
    let mut c = card("a.b", "openvsx:a.b", Some(1200), false);
    c.language = Some(" Rust ".to_string());
    c.version = Some("1.2.0".to_string());
    assert_eq!(format_meta(&c), "Open VSX · Rust · v1.2.0 · ↓1200");
    assert_eq!(format_detail_meta(&c), "Rust · v1.2.0 · 下载 1200");
    c.language = Some("语法高亮".to_string());
    assert_eq!(language_meta_label(&c), None);
    c.stars = None;
    c.version = None;
    assert_eq!(format_detail_meta(&c), "");
    assert_eq!(detail_install_path(&c), "extensions/a.b/");
    assert_eq!(detail_description("  已安装到 extensions/a.b/ ", "extensions/a.b/"), "");
    assert_eq!(detail_description(" Nice tool ", "extensions/a.b/"), "Nice tool");
}

#[test]
fn catalogue_updates() {
    let mut cat = vec![card("a", "k1", None, false), card("b", "k2", None, false)];
    upsert_catalog(&mut cat, card("a2", "k1", Some(3), false));
    upsert_catalog(&mut cat, card("c", "k3", None, false));
    assert_eq!(cat.iter().map(|c| c.id.as_str()).collect::<Vec<_>>(), vec!["a2", "b", "c"]);
    sync_catalog(&mut cat, &vec![card("b2", "k2", None, false)]);
    assert_eq!(cat[1].id, "b2");
    mark_catalog_installed(&mut cat, "k3", true);
    assert!(cat[2].installed && !cat[0].installed);
    remove_catalog_card(&mut cat, "k1");
    assert_eq!(cat.iter().map(|c| c.install_key.as_str()).collect::<Vec<_>>(), vec!["k2", "k3"]);
}

#[test]
fn icons_and_initials() {
    assert_eq!(plugin_initial("  rust"), "R");
    assert_eq!(plugin_initial("   "), "·");
    assert_eq!(plugin_initial("ß"), "SS");
    assert_eq!(plugin_glyph_url(&Some(" https://x/i.png ".into())).as_deref(), Some("https://x/i.png"));
    assert_eq!(plugin_glyph_url(&Some("data:abc".into())), None);
    assert_eq!(plugin_glyph_class(true, false), "ac-skills-detail-icon ac-skill-icon-blue");
    assert_eq!(resolve_ai_model(&Some("  ".into())), "gpt-5.4");
    assert_eq!(resolve_ai_model(&Some(" m1 ".into())), "m1");
}

#[test]
fn urls_are_encoded() {
    assert_eq!(urlencoding_encode("a b/é~"), "a%20b%2F%C3%A9~");
    let plan = openvsx_search_plan("  ");
    assert_eq!(plan.len(), 3);
    assert_eq!(
        openvsx_search_url(&plan[0]),
        "https://open-vsx.org/api/-/search?size=24&sortBy=downloadCount&sortOrder=desc&category=Programming%20Languages"
    );
    let plan = openvsx_search_plan(" rust ");
    assert_eq!(plan.len(), 2);
    assert_eq!(plan[1].query, "rust");
    assert!(plan[1].required && !plan[0].required);
    assert_eq!(
        openvsx_search_url(&plan[1]),
        "https://open-vsx.org/api/-/search?size=30&sortBy=downloadCount&sortOrder=desc&query=rust"
    );
}

#[test]
fn web_cards_from_results() {
    assert!(to_web_card(item("", "x")).is_none());
    let mut it = item("rust-lang", "rust-analyzer");
    it.description = Some("Rust language support".into());
    it.version = Some("0.4".into());
    it.download_count = Some(99);
    it.files = Some(OpenVsxFiles { download: Some("https://d/x.vsix".into()), icon: Some("./icon.png".into()) });
    let c = to_web_card(it).unwrap();
    assert_eq!(c.id, "rust-lang.rust-analyzer");
    assert_eq!(c.name, "rust-lang.rust-analyzer");
    assert_eq!(c.install_key, "openvsx:rust-lang.rust-analyzer");
    assert!(c.highlight_priority);
    assert_eq!(c.language.as_deref(), Some("语法高亮"));
    assert_eq!(c.homepage, "https://open-vsx.org/extension/rust-lang/rust-analyzer");
    assert_eq!(c.git_url, "https://d/x.vsix");
    assert_eq!(
        c.icon_url.as_deref(),
        Some("https://open-vsx.org/api/rust-lang/rust-analyzer/0.4/file/icon.png")
    );
    let plain = to_web_card(item("a", "b")).unwrap();
    assert_eq!(plain.description, "（无描述）");
    assert!(!plain.highlight_priority);
    assert!(is_highlight_text("X", "TextMate grammar"));
    assert!(!is_highlight_text("X", "theme"));
}

#[test]
fn results_merge_and_rank() {
    let mut cards = Vec::new();
    let mut a = item("n", "a");
    a.download_count = Some(5);
    let mut b = item("n", "b");
    b.download_count = Some(50);
    absorb_results(&mut cards, vec![a.clone(), b.clone()], false);
    let mut a2 = item("n", "a");
    a2.download_count = Some(6);
    absorb_results(&mut cards, vec![a2], true);
    absorb_results(&mut cards, vec![b], true);
    assert_eq!(cards.len(), 2);
    let ranked = sort_cards(vec![
        card("x", "x", Some(1), false),
        card("y", "y", Some(9), false),
        card("z", "z", Some(0), true),
        card("w", "w", Some(9), false),
    ]);
    assert_eq!(ranked.iter().map(|c| c.id.as_str()).collect::<Vec<_>>(), vec!["z", "y", "w", "x"]);
    let sorted = sort_cards(cards);
    assert!(sorted.iter().all(|c| c.highlight_priority));
    assert_eq!(sorted[0].id, "n.b");
}

#[test]
fn smart_ui_reports() {
    assert_eq!(smart_ui_scan_report(0, &vec![]), (None, None));
    let errs = vec![("a".to_string(), "e1".to_string()), ("b".to_string(), "e2".to_string())];
    let (ok, err) = smart_ui_scan_report(3, &errs);
    assert_eq!(ok.as_deref(), Some("已为 3 个应用缓存智能 UI"));
    assert_eq!(err.as_deref(), Some("智能 UI：3 成功，2 失败（例如：e1)"));
    let (_, err) = smart_ui_scan_report(0, &vec![("a".to_string(), "bad".to_string())]);
    assert_eq!(err.as_deref(), Some("智能 UI 生成失败：bad"));
}

#[test]
fn installed_filter_matches_any_field_ignoring_case() {
    let mut a = card("rust-lang.rust", "k1", None, false);
    a.name = "Rust Analyzer".into();
    let mut b = card("ms.python", "k2", None, false);
    b.description = "Python LANGUAGE support".into();
    let mut c = card("x.y", "k3", None, false);
    c.language = Some("Go".into());
    let cards = vec![a, b, c];
    let ids = |v: Vec<PluginCard>| v.into_iter().map(|c| c.id).collect::<Vec<_>>();
    assert_eq!(ids(filter_cards(&cards, "  ")), vec!["rust-lang.rust", "ms.python", "x.y"]);
    assert_eq!(ids(filter_cards(&cards, "ANALYZER")), vec!["rust-lang.rust"]);
    assert_eq!(ids(filter_cards(&cards, " language ")), vec!["ms.python"]);
    assert_eq!(ids(filter_cards(&cards, "go")), vec!["x.y"]);
    assert_eq!(ids(filter_cards(&cards, "ms.")), vec!["ms.python"]);
    assert!(filter_cards(&cards, "zzz").is_empty());
}

#[test]
fn search_results_take_installed_flag_from_catalog() {
    let mut installed = card("a", "k1", None, false);
    installed.installed = true;
    let catalog = vec![installed, card("b", "k2", None, false)];
    let mut results = vec![card("a", "k1", None, false), card("c", "k9", None, false)];
    results[1].installed = true;
    refresh_installed_flags(&mut results, &catalog);
    assert!(results[0].installed);
    assert!(results[1].installed);
    let mut r2 = vec![{ let mut x = card("b", "k2", None, false); x.installed = true; x }];
    refresh_installed_flags(&mut r2, &catalog);
    assert!(!r2[0].installed);
}

#[test]
fn openvsx_failure_messages() {
    assert_eq!(
        openvsx_failure_message(&OpenVsxFailure::Status(404)),
        "Open VSX 搜索失败（HTTP 404）"
    );
    assert_eq!(
        openvsx_failure_message(&OpenVsxFailure::Transport("timeout".into())),
        "Open VSX 搜索失败：timeout"
    );
    assert_eq!(
        openvsx_failure_message(&OpenVsxFailure::Unreadable("bad json".into())),
        "Open VSX 结果解析失败：bad json"
    );
}

#[test]
fn openvsx_status_success_range() {
    assert!(openvsx_status_failure(200).is_none());
    assert!(openvsx_status_failure(299).is_none());
    assert!(matches!(openvsx_status_failure(300), Some(OpenVsxFailure::Status(300))));
    assert!(matches!(openvsx_status_failure(199), Some(OpenVsxFailure::Status(199))));
}

#[test]
fn required_request_failure_ends_search() {
    let plan = openvsx_search_plan("rust");
    let mut cards: Vec<PluginCard> = Vec::new();
    // The language-category request may fail and is skipped.
    assert_eq!(absorb_reply(&mut cards, &plan[0], Err(OpenVsxFailure::Status(500))), None);
    assert!(cards.is_empty());
    // The general request is required.
    assert_eq!(
        absorb_reply(&mut cards, &plan[1], Err(OpenVsxFailure::Status(503))),
        Some("Open VSX 搜索失败（HTTP 503）".to_string())
    );
    assert!(cards.is_empty());
}

#[test]
fn reply_items_are_merged() {
    let plan = openvsx_search_plan("rust");
    let mut cards: Vec<PluginCard> = Vec::new();
    assert_eq!(absorb_reply(&mut cards, &plan[0], Ok(vec![item("a", "b")])), None);
    assert_eq!(cards.len(), 1);
    assert_eq!(cards[0].id, "a.b");
    assert!(cards[0].highlight_priority);
}
