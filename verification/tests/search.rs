use pusa_ui::search::{
    walk_entry_action, note_replace_failed, note_replace_step, replace_notice, ReplaceDone, WalkAction, WalkEntryKind,
    rel_path,
    add_walked_file, SearchHit, SearchOutcome, MAX_FILES,
    kick_search, search_finished, search_is_current, SearchFileHits, SearchKick, SearchRuns,
    empty_outcome, replace_all_start, replace_all_warning, ReplaceAllStart,
    rg_count_matches,
    apply_preserve_case, find_literal_spans, glob_match, highlight_parts, is_skipped_dir_name,
    is_whole_word, parse_rg_json, path_passes_filters, replace_all_message, replace_step,
    replace_text_literal, rg_args, rg_result, search_after_rg, search_request, search_summary,
    search_text_hits, split_globs, truncate_hit_line, workspace_missing, writable_paths,
    ReplaceStep, RgLine, SearchRequest, MAX_LINE_CHARS, MAX_MATCHES,
};

fn s(xs: &[&str]) -> Vec<String> {
    xs.iter().map(|x| x.to_string()).collect()
}

#[test]
fn glob_star_matches_nested_rs() {
    assert!(glob_match("*.rs", "src/shell/search.rs"));
    assert!(glob_match("src/**/*.rs", "src/shell/search.rs"));
    assert!(!glob_match("*.toml", "src/shell/search.rs"));
}

#[test]
fn whole_word_skips_partial() {
    let hits = find_literal_spans("searching search", "search", true, true);
    assert_eq!(hits, vec![(10, 16)]);
}

#[test]
fn glob_details() {
    assert!(glob_match("SRC/*.RS", "src/a.rs"));
    assert!(!glob_match("src/*.rs", "src/shell/a.rs"));
    assert!(glob_match("src/?.rs", "src/a.rs"));
    assert!(!glob_match("src/?.rs", "src/ab.rs"));
    assert!(glob_match("/dist", "web/dist"));
    assert!(glob_match("a\\**\\b.txt", "a/x/y/b.txt"));
    assert!(path_passes_filters("src/a.rs", &s(&["*.rs"]), &s(&["*.lock"])));
    assert!(!path_passes_filters("Cargo.lock", &s(&[]), &s(&["*.lock"])));
    assert!(!path_passes_filters("a.ts", &s(&["*.rs", "*.toml"]), &s(&[])));
}

#[test]
fn globs_are_split_and_trimmed() {
    assert_eq!(split_globs(" *.rs, src/**/*.ts ;\n;  "), s(&["*.rs", "src/**/*.ts"]));
    assert_eq!(split_globs(""), s(&[]));
}

#[test]
fn literal_spans_in_bytes() {
    assert_eq!(find_literal_spans("aaaa", "aa", true, false), vec![(0, 2), (2, 4)]);
    assert_eq!(find_literal_spans("é search", "search", true, false), vec![(3, 9)]);
    assert_eq!(find_literal_spans("Foo foo FOO", "foo", false, false), vec![(0, 3), (4, 7), (8, 11)]);
    assert_eq!(find_literal_spans("Foo foo", "foo", true, false), vec![(4, 7)]);
    assert_eq!(find_literal_spans("foo_bar foo", "foo", false, true), vec![(8, 11)]);
    assert_eq!(find_literal_spans("abc", "", false, false), vec![]);
    assert!(is_whole_word("a b", 2, 3));
    assert!(!is_whole_word("ab", 1, 2));
    assert!(!is_whole_word("é", 1, 2));
}

#[test]
fn replacement_keeps_case_pattern() {
    assert_eq!(apply_preserve_case("HELLO", "world"), "WORLD");
    assert_eq!(apply_preserve_case("hello", "WoRLD"), "world");
    assert_eq!(apply_preserve_case("Hello", "world"), "World");
    assert_eq!(apply_preserve_case("hELLO", "world"), "world");
    assert_eq!(apply_preserve_case("123", "world"), "world");
    let (out, n) = replace_text_literal("Foo foo FOO", "foo", false, false, "bar", true);
    assert_eq!(out, "Bar bar BAR");
    assert_eq!(n, 3);
    let (out, n) = replace_text_literal("x.y", "z", true, false, "q", false);
    assert_eq!(out, "x.y");
    assert_eq!(n, 0);
}

#[test]
fn long_lines_are_cut_around_the_match() {
    let short = "hello world";
    assert_eq!(truncate_hit_line(short, 6, 11), (short.to_string(), 6, 11));
    assert_eq!(truncate_hit_line(short, 50, 60), (short.to_string(), 11, 11));
    let long: String = "x".repeat(300) + "NEEDLE" + &"y".repeat(300);
    let (shown, hs, he) = truncate_hit_line(&long, 300, 306);
    assert!(shown.starts_with('…') && shown.ends_with('…'));
    assert_eq!(shown.chars().count(), MAX_LINE_CHARS + 2);
    assert_eq!(&shown[hs + 2..he + 2], "NEEDLE");
}

#[test]
fn file_hits_respect_the_limit() {
    let text = "a x\r\nb\nx x\n";
    let (hits, count, truncated) = search_text_hits(text, "x", true, false, 0);
    assert_eq!(count, 3);
    assert!(!truncated);
    assert_eq!(hits.iter().map(|h| h.line_no).collect::<Vec<_>>(), vec![1, 3, 3]);
    assert_eq!(hits[0].line, "a x");
    let (hits, count, truncated) = search_text_hits(text, "x", true, false, MAX_MATCHES - 2);
    assert_eq!(hits.len(), 2);
    assert_eq!(count, MAX_MATCHES);
    assert!(truncated);
}

fn rg(kind: &str, path: &str, line: u64, text: &str, start: u64, end: u64) -> Option<RgLine> {
    Some(RgLine {
        kind: Some(kind.to_string()),
        has_data: true,
        path: Some(path.to_string()),
        line_number: Some(line),
        text: Some(text.to_string()),
        submatch: Some((Some(start), Some(end))),
    })
}

#[test]
fn rg_matches_are_grouped_by_file() {
    let lines = vec![
        rg("begin", "a.rs", 0, "", 0, 0),
        rg("match", "a.rs", 3, "let x = 1;\n", 4, 5),
        None,
        rg("match", "b.rs", 7, "x\r\n", 0, 1),
        rg("match", "a.rs", 9, "x\n", 0, 1),
        rg("match", "", 1, "x", 0, 1),
    ];
    let out = parse_rg_json(&lines, "/ws");
    assert_eq!(out.match_count, 3);
    assert!(!out.truncated);
    assert_eq!(out.files.len(), 2);
    assert_eq!(out.files[0].hits.len(), 2);
    assert_eq!(out.files[0].hits[0].line, "let x = 1;");
    assert_eq!(out.files[0].hits[1].line_no, 9);
    assert_eq!(out.files[1].hits[0].line, "x");
    assert!(out.files[0].rel.ends_with("a.rs"));
    assert_eq!(rg_result(false, "  boom ", &lines, "/ws").unwrap_err(), "boom");
    assert_eq!(rg_result(false, "", &lines, "/ws").unwrap_err(), "ripgrep 搜索失败。");
}

#[test]
fn rg_arguments_follow_the_request() {
    let req = SearchRequest {
        root: "/ws".to_string(),
        query: "needle".to_string(),
        case_sensitive: false,
        whole_word: true,
        regex: false,
        include_globs: "*.rs".to_string(),
        exclude_globs: "dist".to_string(),
    };
    let args = rg_args(&req);
    let tail: Vec<&str> = args.iter().skip(12).map(|s| s.as_str()).collect();
    assert_eq!(args[0], "--json");
    assert_eq!(tail, vec!["--glob", "*.rs", "--glob", "!dist", "-i", "-w", "-F", "--", "needle", "."]);
}

#[test]
fn search_flow_decisions() {
    assert!(search_request("/ws", "   ", true, false, false, "", "").is_none());
    let r = search_request("/ws", " q ", true, false, true, "i", "e").unwrap();
    assert_eq!(r.query, "q");
    assert_eq!(workspace_missing(" ").unwrap().error.as_deref(), Some("未打开工作区。"));
    assert!(workspace_missing("/ws").is_none());
    assert!(search_after_rg(false, Ok(None)).is_none());
    assert_eq!(
        search_after_rg(true, Ok(None)).unwrap().error.as_deref(),
        Some("正则搜索需要系统已安装 ripgrep（rg）。")
    );
    assert_eq!(search_after_rg(false, Err("e".into())).unwrap().error.as_deref(), Some("e"));
    assert!(is_skipped_dir_name("Node_Modules"));
    assert!(!is_skipped_dir_name("src"));
}

#[test]
fn summaries_and_messages() {
    assert_eq!(search_summary(true, &None, true, 3, 1, false), "正在搜索…");
    assert_eq!(search_summary(false, &Some("bad".into()), true, 3, 1, false), "bad");
    assert_eq!(search_summary(false, &None, false, 0, 0, false), "输入关键词后按 Enter 搜索文件内容");
    assert_eq!(search_summary(false, &None, true, 0, 0, false), "未找到结果");
    assert_eq!(search_summary(false, &None, true, 12, 3, true), "已找到 12 个结果 · 3 个文件（已截断）");
    assert_eq!(replace_all_message(5, 2, 0, 0), ("已替换 5 处，写入 2 个文件".to_string(), false));
    assert_eq!(
        replace_all_message(5, 2, 1, 3),
        ("已替换 5 处，写入 2 个文件，跳过 1 个未保存文件，3 个失败".to_string(), true)
    );
    assert_eq!(replace_step("a", "a", 2), ReplaceStep::Unchanged);
    assert_eq!(replace_step("a", "", 1), ReplaceStep::RefuseEmpty);
    assert_eq!(replace_step("a", "b", 1), ReplaceStep::Write);
    let (w, skipped) = writable_paths(&s(&["a", "b", "c"]), &s(&["b"]));
    assert_eq!(w, s(&["a", "c"]));
    assert_eq!(skipped, 1);
}

#[test]
fn highlight_splits_at_boundaries() {
    assert_eq!(
        highlight_parts("héllo", 1, 3),
        Some(("h".to_string(), "é".to_string(), "llo".to_string()))
    );
    assert_eq!(highlight_parts("héllo", 2, 3), None);
    assert_eq!(highlight_parts("abc", 2, 1), None);
    assert_eq!(highlight_parts("abc", 0, 9), None);
}

#[test]
fn rg_count_matches_reads_last_field() {
    assert_eq!(rg_count_matches("7\n"), 7);
    assert_eq!(rg_count_matches("C:\\work\\a.txt:12\n"), 12);
    assert_eq!(rg_count_matches(""), 0);
    assert_eq!(rg_count_matches("x:abc"), 0);
    assert_eq!(rg_count_matches("+3"), 3);
}

#[test]
fn walked_files_are_listed_until_the_file_limit() {
    let hit = || SearchHit { line_no: 1, line: "x".into(), start: 0, end: 1 };
    let mut o = SearchOutcome { files: vec![], match_count: 0, truncated: false, error: None };
    assert!(!add_walked_file(&mut o, "/w/a".into(), "a".into(), vec![hit()], 1, false));
    assert_eq!(o.files.len(), 1);
    assert_eq!(o.match_count, 1);
    assert!(!add_walked_file(&mut o, "/w/b".into(), "b".into(), vec![], 1, false));
    assert_eq!(o.files.len(), 1);
    assert!(add_walked_file(&mut o, "/w/c".into(), "c".into(), vec![hit()], 2000, true));
    assert_eq!(o.files.len(), 2);
    assert!(o.truncated);
    let mut full = SearchOutcome { files: vec![], match_count: 0, truncated: false, error: None };
    for i in 0..MAX_FILES {
        add_walked_file(&mut full, format!("/w/{i}"), format!("{i}"), vec![hit()], i + 1, false);
    }
    assert!(!full.truncated);
    assert!(add_walked_file(&mut full, "/w/z".into(), "z".into(), vec![hit()], MAX_FILES + 1, false));
    assert_eq!(full.files.len(), MAX_FILES);
    assert_eq!(full.match_count, MAX_FILES + 1);
}

fn found(paths: &[&str]) -> SearchOutcome {
    SearchOutcome {
        files: paths
            .iter()
            .map(|p| SearchFileHits { path: p.to_string(), rel: p.to_string(), hits: vec![] })
            .collect(),
        match_count: 0,
        truncated: false,
        error: None,
    }
}

fn runs(epoch: u64, loading: bool) -> SearchRuns {
    SearchRuns { epoch, loading, outcome: empty_outcome(), expanded: vec![] }
}

#[test]
fn blank_search_clears_and_stops_loading() {
    let mut runs = runs(4, true);
    runs.outcome = found(&["/w/a.rs"]);
    runs.expanded = s(&["/w/a.rs"]);
    let req = search_request("/w", "   ", false, false, false, "", "");
    assert!(matches!(kick_search(&mut runs, req), SearchKick::Clear));
    assert_eq!(runs.epoch, 5);
    assert!(!runs.loading);
    assert!(runs.outcome.files.is_empty());
    assert_eq!(runs.outcome.match_count, 0);
    assert!(runs.expanded.is_empty());
}

#[test]
fn search_run_carries_the_new_epoch() {
    let mut runs = runs(0, false);
    let req = search_request("/w", " foo ", true, false, false, "", "");
    match kick_search(&mut runs, req) {
        SearchKick::Run { epoch, request } => {
            assert_eq!(epoch, 1);
            assert_eq!(request.query, "foo");
        }
        SearchKick::Clear => panic!("expected a run"),
    }
    assert!(runs.loading);
    assert!(search_is_current(&runs, 1));
}

#[test]
fn finished_search_opens_every_found_file() {
    let mut runs = runs(3, true);
    assert!(search_finished(&mut runs, 3, found(&["/w/a.rs", "/w/b.rs"])));
    assert_eq!(runs.expanded, s(&["/w/a.rs", "/w/b.rs"]));
    assert_eq!(runs.outcome.files.len(), 2);
    assert!(!runs.loading);
}

#[test]
fn superseded_search_is_dropped() {
    let mut runs = runs(0, false);
    let first = search_request("/w", "a", false, false, false, "", "");
    let second = search_request("/w", "ab", false, false, false, "", "");
    kick_search(&mut runs, first);
    kick_search(&mut runs, second);
    assert!(!search_is_current(&runs, 1));
    assert!(!search_finished(&mut runs, 1, found(&["/w/a.rs"])));
    assert!(runs.loading);
    assert!(runs.outcome.files.is_empty());
    assert!(search_finished(&mut runs, 2, found(&[])));
    assert!(!runs.loading);
}

#[test]
fn replace_all_start_warns_or_asks() {
    let empty = found(&[]);
    assert!(matches!(replace_all_start(&empty, &vec![]), ReplaceAllStart::NoResults));
    let mut o = found(&["/w/a.rs", "/w/b.rs"]);
    o.match_count = 5;
    let all_dirty = replace_all_start(&o, &s(&["/w/a.rs", "/w/b.rs"]));
    assert!(matches!(all_dirty, ReplaceAllStart::AllDirty));
    assert_eq!(
        replace_all_warning(&all_dirty).as_deref(),
        Some("当前匹配的文件都有未保存修改，请先保存或撤销后再替换。")
    );
    assert_eq!(replace_all_warning(&ReplaceAllStart::NoResults).as_deref(), Some("没有可替换的结果。"));
    match replace_all_start(&o, &s(&["/w/a.rs"])) {
        ReplaceAllStart::Confirm { writable, matches, skipped } => {
            assert_eq!(writable, s(&["/w/b.rs"]));
            assert_eq!(matches, 5);
            assert_eq!(skipped, 1);
        }
        _ => panic!("expected a confirmation"),
    }
}

#[test]
fn rel_path_under_root_or_whole() {
    assert_eq!(rel_path("/ws", "/ws/src/a.rs"), "src/a.rs");
    assert_eq!(rel_path("/ws", "/ws"), "");
    assert_eq!(rel_path("/ws", "/other/a.rs"), "/other/a.rs");
}

#[test]
fn walk_skips_links_and_skipped_folders() {
    let none: Vec<String> = vec![];
    assert_eq!(walk_entry_action(WalkEntryKind::Symlink, "src", "src", &none, &none), WalkAction::Skip);
    assert_eq!(walk_entry_action(WalkEntryKind::Dir, "Node_Modules", "node_modules", &none, &none), WalkAction::Skip);
    assert_eq!(walk_entry_action(WalkEntryKind::Dir, "src", "src", &none, &none), WalkAction::Descend);
    assert_eq!(walk_entry_action(WalkEntryKind::Other, "fifo", "fifo", &none, &none), WalkAction::Skip);
    assert_eq!(walk_entry_action(WalkEntryKind::File, "a.rs", "src/a.rs", &none, &none), WalkAction::Search);
    let only_toml = s(&["*.toml"]);
    assert_eq!(walk_entry_action(WalkEntryKind::File, "a.rs", "src/a.rs", &only_toml, &none), WalkAction::Skip);
    let no_rs = s(&["*.rs"]);
    assert_eq!(walk_entry_action(WalkEntryKind::File, "a.rs", "src/a.rs", &none, &no_rs), WalkAction::Skip);
}

#[test]
fn replace_tally_counts_written_and_failed_files() {
    let mut done = ReplaceDone::new();
    note_replace_step(&mut done, "/w/a.rs", "new a".to_string(), 3, ReplaceStep::Write, Ok(()));
    note_replace_step(&mut done, "/w/b.rs", "".to_string(), 1, ReplaceStep::RefuseEmpty, Ok(()));
    note_replace_step(&mut done, "/w/c.rs", "c".to_string(), 0, ReplaceStep::Unchanged, Ok(()));
    note_replace_step(&mut done, "/w/d.rs", "d".to_string(), 2, ReplaceStep::Write, Err("denied".to_string()));
    note_replace_failed(&mut done, "/w/e.rs", "unreadable");
    assert_eq!(done.replaced, 3);
    assert_eq!(done.written, vec![("/w/a.rs".to_string(), "new a".to_string())]);
    assert_eq!(
        done.errors,
        s(&["/w/b.rs：替换结果为空，已跳过。", "/w/d.rs：denied", "/w/e.rs：unreadable"])
    );
    let (msg, warn) = replace_notice(&done, 1);
    assert!(warn);
    assert_eq!(msg, replace_all_message(3, 1, 1, 3).0);
}
