use pusa_ui::files::{
    resolved_tool_path, reveal_dirs,
    count_text_lines, create_parent_from, created_application_notice, created_application_notice_from,
    created_extension_plugin, created_plugin_from, fs_browser_url, cache_listings_nested, keys_unique_dirs, resolve_create_parent, reveal_target, entry_is_dir, fs_cache_listing, fs_cache_open_is_stale,
    fs_cache_reload, fs_cache_reload_open, fs_dir_needs_listing, fs_file_title, fs_is_pdf_path,
    fs_is_stl_path, fs_name_is_muted, fs_open_dirs, fs_relative_to_root, fs_resolve_html_preview,
    fs_resolve_tool_path, fs_reveal_in_tree, fs_visible_rows, html_preview_apply_resize,
    html_preview_phone_models, html_preview_resize_handles, line_number_at_needle,
    relative_from, snippet_start_line, title_from, DirCache, FsEntryDto, HtmlPreviewResizeEdge,
    HTML_PREVIEW_PHONE_MAX_W, HTML_PREVIEW_PHONE_MIN_H,
};

fn entry(name: &str, path: &str, is_dir: bool) -> FsEntryDto {
    FsEntryDto { name: name.to_string(), path: path.to_string(), is_dir }
}

fn s(xs: &[&str]) -> Vec<String> {
    xs.iter().map(|x| x.to_string()).collect()
}

#[test]
fn line_counts_follow_the_editor() {
    assert_eq!(count_text_lines(""), 1);
    assert_eq!(count_text_lines("a"), 1);
    assert_eq!(count_text_lines("a\n"), 2);
    assert_eq!(count_text_lines("a\nb"), 2);
    assert_eq!(count_text_lines("\n\n"), 3);
}

#[test]
fn titles_kinds_and_relative_paths() {
    assert_eq!(fs_file_title("/ws/src/main.rs"), "main.rs");
    assert_eq!(title_from("/", None), "/");
    assert!(fs_is_pdf_path("/a/Report.PDF"));
    assert!(!fs_is_pdf_path("/a/pdf"));
    assert!(fs_is_stl_path("part.stl"));
    assert_eq!(fs_resolve_html_preview("/a/index.HTM", false).as_deref(), Some("/a/index.HTM"));
    assert_eq!(fs_resolve_html_preview("/a/site", true), None);
    assert_eq!(fs_relative_to_root("/ws", "/ws/src/a.rs"), "src/a.rs");
    assert_eq!(fs_relative_to_root("/ws", "/ws"), ".");
    assert_eq!(fs_relative_to_root("/ws", "/other/a.rs"), "/other/a.rs");
    assert_eq!(relative_from("/x", Some(String::new())), ".");
    assert!(fs_name_is_muted("node_modules"));
    assert!(!fs_name_is_muted("Target"));
    assert_eq!(fs_resolve_tool_path("  ", "/ws"), "");
    assert_eq!(fs_resolve_tool_path(" src/a.rs ", ""), "src/a.rs");
    assert_eq!(fs_resolve_tool_path("src/a.rs", "/ws"), "/ws/src/a.rs");
    assert_eq!(fs_resolve_tool_path("/abs/a.rs", "/ws"), "/abs/a.rs");
}

#[test]
fn cache_keeps_listings_per_directory() {
    let mut cache = DirCache::new();
    assert!(fs_dir_needs_listing(&cache, "/ws"));
    fs_cache_reload(&mut cache, "/ws", Ok(vec![entry("src", "/ws/src", true), entry("a.txt", "/ws/a.txt", false)]));
    fs_cache_reload(&mut cache, "/ws/src", Err("denied".to_string()));
    assert!(!fs_dir_needs_listing(&cache, "/ws"));
    assert!(fs_dir_needs_listing(&cache, "/ws/src"));
    fs_cache_reload(&mut cache, "/ws/src", Ok(vec![entry("lib.rs", "/ws/src/lib.rs", false)]));
    assert_eq!(cache.dirs.len(), 2);
    assert_eq!(fs_cache_listing(&cache, "/ws/src"), Some(Ok(vec![entry("lib.rs", "/ws/src/lib.rs", false)])));
    let rows = fs_visible_rows("/ws", &s(&["/ws/src"]), &cache);
    let got: Vec<(&str, u32)> = rows.iter().map(|(e, d)| (e.name.as_str(), *d)).collect();
    assert_eq!(got, vec![("src", 0), ("lib.rs", 1), ("a.txt", 0)]);
    let closed = fs_visible_rows("/ws", &s(&[]), &cache);
    assert_eq!(closed.len(), 2);
    assert_eq!(entry_is_dir(&cache, "/ws/src", "/ws"), Some(true));
    assert_eq!(entry_is_dir(&cache, "/ws/a.txt", "/ws"), Some(false));
    assert_eq!(entry_is_dir(&cache, "/ws", "/ws"), Some(true));
    assert_eq!(entry_is_dir(&cache, "/ws/zzz", "/ws"), None);
}

#[test]
fn open_directories_are_refreshed_when_stale() {
    let mut cache = DirCache::new();
    fs_cache_reload(&mut cache, "/ws", Ok(vec![entry("a", "/ws/a", false)]));
    let same = vec![("/ws".to_string(), Ok(vec![entry("a", "/ws/a", false)]))];
    assert!(!fs_cache_open_is_stale(&cache, "/ws", &same));
    let fresh = vec![("/ws".to_string(), Ok(vec![entry("b", "/ws/b", false)]))];
    assert!(fs_cache_open_is_stale(&cache, "/ws", &fresh));
    assert!(!fs_cache_open_is_stale(&cache, "", &fresh));
    assert!(fs_cache_reload_open(&mut cache, "/ws", fresh.clone()));
    assert!(!fs_cache_reload_open(&mut cache, "/ws", fresh));
    let dirs = fs_open_dirs("/ws", &s(&["/ws/a", "", "/ws", "/ws/a"]));
    assert_eq!(dirs, s(&["/ws", "/ws/a"]));
}

#[test]
fn creating_and_revealing() {
    assert_eq!(create_parent_from(&None, "/ws", false, None), "/ws");
    assert_eq!(create_parent_from(&Some("/ws/d".into()), "/ws", true, None), "/ws/d");
    assert_eq!(create_parent_from(&Some("/ws/d/f".into()), "/ws", false, Some("/ws/d".into())), "/ws/d");
    assert_eq!(create_parent_from(&Some("f".into()), "/ws", false, Some(String::new())), "/ws");
    assert_eq!(fs_reveal_in_tree("/ws", "/ws/a/b/c.rs"), s(&["/ws/a", "/ws/a/b"]));
    assert!(fs_reveal_in_tree("", "/ws/a").is_empty());
    assert!(fs_reveal_in_tree("/ws", "/elsewhere/a").is_empty());
}

#[test]
fn snippet_lines_are_located() {
    assert_eq!(line_number_at_needle("a\nb\nc", "c"), Some(3));
    assert_eq!(line_number_at_needle("a\nb", ""), None);
    assert_eq!(line_number_at_needle("a\nb", "z"), None);
    assert_eq!(snippet_start_line(&None, "x", "y"), 1);
    assert_eq!(snippet_start_line(&Some("p\nq\nr".into()), "zz", "r"), 3);
    assert_eq!(snippet_start_line(&Some("p\nq\nr".into()), "q", "r"), 2);
}

#[test]
fn phone_frame_resizing_is_bounded() {
    assert_eq!(html_preview_apply_resize(HtmlPreviewResizeEdge::E, 400, 800, 50, 0), (450, 800));
    assert_eq!(html_preview_apply_resize(HtmlPreviewResizeEdge::Nw, 400, 800, 10, 20), (390, 780));
    assert_eq!(html_preview_apply_resize(HtmlPreviewResizeEdge::Se, 700, 800, 100, -900), (HTML_PREVIEW_PHONE_MAX_W, HTML_PREVIEW_PHONE_MIN_H));
    assert_eq!(html_preview_resize_handles().len(), 8);
    assert_eq!(html_preview_phone_models()[0].1, 393);
}

#[test]
fn browser_url_keeps_web_addresses() {
    assert_eq!(fs_browser_url("https://example.com/a"), "https://example.com/a");
    assert_eq!(fs_browser_url("http://localhost:8080"), "http://localhost:8080");
    assert_eq!(fs_browser_url("/home/u/site/index.html"), "file:///home/u/site/index.html");
    assert_eq!(fs_browser_url("httpx"), "file://httpx");
}

#[test]
fn new_entries_go_into_selected_folder_or_beside_file() {
    assert_eq!(resolve_create_parent(&None, "/w", false), "/w");
    assert_eq!(resolve_create_parent(&Some("/w/src".into()), "/w", true), "/w/src");
    assert_eq!(resolve_create_parent(&Some("/w/src/main.rs".into()), "/w", false), "/w/src");
}

#[test]
fn created_plugin_reveals_it_in_the_tree() {
    let r = created_plugin_from("/w", "/w/extension/hi", "/w/extension".into(), Some("extension\\hi".into()));
    assert_eq!(r.expand, vec!["/w".to_string(), "/w/extension".to_string()]);
    assert_eq!(r.reload, vec!["/w".to_string(), "/w/extension".to_string(), "/w/extension/hi".to_string()]);
    assert_eq!(r.select, "/w/extension/hi");
    assert_eq!(r.notice, "已创建插件：extension/hi");
    let r = created_extension_plugin("/w", "/w/extension/hi");
    assert_eq!(r.notice, "已创建插件：extension/hi");
    assert_eq!(r.reload[1], "/w/extension");
}

#[test]
fn created_application_notices() {
    assert_eq!(
        created_application_notice_from("/w/application/app", Some("app".into()), &Ok("/w/application/app".into())),
        (true, "已创建并打开项目：app".to_string())
    );
    assert_eq!(
        created_application_notice("/w/application/app", &Err("denied".into())),
        (false, "已创建应用，但打开项目失败：denied".to_string())
    );
    assert_eq!(created_application_notice("/w/application/app", &Ok(String::new())).1, "已创建并打开项目：app");
}

#[test]
fn chat_file_links_resolve_under_root() {
    assert_eq!(reveal_target("  src/a.rs ", "/w"), "/w/src/a.rs");
    assert_eq!(reveal_target("/abs/b.rs", "/w"), "/abs/b.rs");
    assert_eq!(reveal_target(" c.rs ", ""), "c.rs");
    assert_eq!(reveal_target("   ", "/w"), "");
}

#[test]
fn cache_keys_checked_for_duplicates() {
    let ok = DirCache { dirs: vec![("/a".to_string(), Ok(vec![])), ("/b".to_string(), Err("x".to_string()))] };
    assert!(keys_unique_dirs(&ok));
    let dup = DirCache { dirs: vec![("/a".to_string(), Ok(vec![])), ("/a".to_string(), Ok(vec![]))] };
    assert!(!keys_unique_dirs(&dup));
    assert!(keys_unique_dirs(&DirCache::new()));
}

#[test]
fn cache_listings_must_nest() {
    let good = DirCache { dirs: vec![("/w".to_string(), Ok(vec![entry("src", "/w/src", true), entry("a", "/a", false)]))] };
    assert!(cache_listings_nested(&good));
    let bad = DirCache { dirs: vec![("/w/long".to_string(), Ok(vec![entry("x", "/w", true)]))] };
    assert!(!cache_listings_nested(&bad));
    let err = DirCache { dirs: vec![("/w".to_string(), Err("no".to_string()))] };
    assert!(cache_listings_nested(&err));
}

#[test]
fn clean_path_edges() {
    // A name with only a leading dot has no extension.
    assert!(!fs_is_pdf_path("/a/.pdf"));
    assert!(fs_is_pdf_path("/a/.x.pdf"));
    assert!(fs_is_stl_path("model.StL"));
    // The root has no file name: its title is the path.
    assert_eq!(fs_file_title("/"), "/");
    // Under the root `/`, and names compared whole.
    assert_eq!(fs_relative_to_root("/", "/ws/a.rs"), "ws/a.rs");
    assert_eq!(fs_relative_to_root("/ws", "/wsx/a.rs"), "/wsx/a.rs");
    assert_eq!(fs_reveal_in_tree("/", "/a/b/c"), s(&["/a", "/a/b"]));
    assert!(fs_reveal_in_tree("/ws", "/ws").is_empty());
    assert!(fs_reveal_in_tree("/ws", "/ws/file.rs").is_empty());
}

#[test]
fn visible_rows_follow_any_acyclic_listing() {
    // `/ws` lists the folder `/b`, whose path is not longer than `/ws`.
    let mut cache = DirCache::new();
    fs_cache_reload(&mut cache, "/ws", Ok(vec![entry("b", "/b", true)]));
    fs_cache_reload(&mut cache, "/b", Ok(vec![entry("x", "/b/x", false)]));
    assert!(!cache_listings_nested(&cache));
    let rows = fs_visible_rows("/ws", &s(&["/b"]), &cache);
    let got: Vec<(&str, u32)> = rows.iter().map(|(e, d)| (e.name.as_str(), *d)).collect();
    assert_eq!(got, vec![("b", 0), ("x", 1)]);
}

#[test]
fn tool_paths_join_clean_relative_paths() {
    assert_eq!(fs_resolve_tool_path(" src/shell/a.rs ", "/ws"), "/ws/src/shell/a.rs");
    assert_eq!(fs_resolve_tool_path("a.rs", "/"), "/a.rs");
}

#[test]
fn tool_path_from_outside_answers() {
    assert_eq!(resolved_tool_path(String::new(), "/ws", false, "x".into()), "");
    assert_eq!(resolved_tool_path("C:\\a.rs".into(), "/ws", true, "ignored".into()), "C:\\a.rs");
    assert_eq!(resolved_tool_path("a.rs".into(), "", false, "ignored".into()), "a.rs");
    assert_eq!(resolved_tool_path("a.rs".into(), "/ws", false, "/ws/a.rs".into()), "/ws/a.rs");
}

#[test]
fn reveal_dirs_drop_the_last_component() {
    let comps = s(&["a", "b", "c.rs"]);
    assert_eq!(reveal_dirs(&comps, s(&["/ws/a", "/ws/a/b", "/ws/a/b/c.rs"])), s(&["/ws/a", "/ws/a/b"]));
    assert!(reveal_dirs(&s(&[]), s(&[])).is_empty());
}

#[test]
fn stale_check_matches_reload() {
    let mut cache = DirCache::new();
    fs_cache_reload(&mut cache, "/ws", Ok(vec![entry("a", "/ws/a", false)]));
    let fresh = vec![("/ws".to_string(), Ok(vec![entry("b", "/ws/b", false)]))];
    let stale = fs_cache_open_is_stale(&cache, "/ws", &fresh);
    assert!(stale);
    assert_eq!(fs_cache_reload_open(&mut cache, "/ws", fresh.clone()), stale);
    assert!(!fs_cache_open_is_stale(&cache, "/ws", &fresh));
}

#[test]
fn created_items_and_parents_at_the_edges() {
    // A plugin outside the workspace is shown by its whole path.
    let r = created_extension_plugin("/w", "/elsewhere/hi");
    assert_eq!(r.expand[1], "/w/extension");
    assert_eq!(r.notice, "已创建插件：/elsewhere/hi");
    // A selected file right under the root creates beside it; a single
    // relative name has an empty parent, so the root is used.
    assert_eq!(resolve_create_parent(&Some("/w/a.rs".into()), "/w", false), "/w");
    assert_eq!(resolve_create_parent(&Some("a.rs".into()), "/w", false), "/w");
}
