use pusa_ui::browser::{browser_tab_title, normalize_browser_url, OpenBrowserTick, TabStripMenuAction};

#[test]
fn normalizes_scheme_less_input() {
    assert_eq!(
        normalize_browser_url("example.com").as_deref(),
        Some("https://example.com")
    );
    assert_eq!(
        normalize_browser_url("  huangguoai.com/videos  ").as_deref(),
        Some("https://huangguoai.com/videos")
    );
}

#[test]
fn keeps_explicit_scheme() {
    assert_eq!(
        normalize_browser_url("http://localhost:8080").as_deref(),
        Some("http://localhost:8080")
    );
}

#[test]
fn tab_title_uses_host_or_default() {
    assert_eq!(browser_tab_title(""), "Pusa 浏览器");
    assert_eq!(browser_tab_title("https://example.com/a/b?x=1"), "example.com");
    assert_eq!(browser_tab_title("http://localhost:8080"), "localhost:8080");
    assert_eq!(browser_tab_title("example.com#top"), "example.com");
}

#[test]
fn rejects_empty_input() {
    assert_eq!(normalize_browser_url("   "), None);
}

#[test]
fn tab_title_skips_user_scheme_only() {
    assert_eq!(browser_tab_title("  https://docs.rs/  "), "docs.rs");
    assert_eq!(browser_tab_title("ftp://files.example.org?x"), "files.example.org");
}

#[test]
fn normalizing_twice_changes_nothing() {
    for raw in ["example.com", "  http://localhost:8080 ", "a b", "ftp://x"] {
        let once = normalize_browser_url(raw).unwrap();
        assert_eq!(normalize_browser_url(&once).as_deref(), Some(once.as_str()));
    }
}

#[test]
fn open_browser_request_changes_the_tick() {
    let mut tick = OpenBrowserTick(0);
    tick.request();
    assert_eq!(tick.0, 1);
    tick.request();
    assert_eq!(tick.0, 2);
}

#[test]
fn open_browser_request_wraps_at_the_top() {
    let mut tick = OpenBrowserTick(u64::MAX);
    tick.request();
    assert_eq!(tick.0, 0);
}

#[test]
fn tab_strip_menu_has_open_browser() {
    let a = TabStripMenuAction::OpenBrowser;
    assert_eq!(a, TabStripMenuAction::OpenBrowser);
}

#[test]
fn normalizing_keeps_the_tab_title() {
    for raw in ["example.com/path", "  https://a.b?x=1 ", "localhost:8080#top"] {
        let n = normalize_browser_url(raw).unwrap();
        assert_eq!(browser_tab_title(&n), browser_tab_title(raw));
    }
    assert_eq!(browser_tab_title("https://"), "Pusa 浏览器");
}
