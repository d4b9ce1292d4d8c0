use pusa_ui::diff::{diff_numbers_fit, snippet_diff_lines, DiffLineKind};

#[test]
fn one_changed_line_is_deleted_then_inserted() {
    let rows = snippet_diff_lines("a\nb\nc", "a\nx\nc", 10);
    let got: Vec<(DiffLineKind, Option<u32>, Option<u32>, &str)> =
        rows.iter().map(|r| (r.kind, r.old_no, r.new_no, r.text.as_str())).collect();
    assert_eq!(
        got,
        vec![
            (DiffLineKind::Context, Some(10), Some(10), "a"),
            (DiffLineKind::Delete, Some(11), None, "b"),
            (DiffLineKind::Insert, None, Some(11), "x"),
            (DiffLineKind::Context, Some(12), Some(12), "c"),
        ]
    );
}

#[test]
fn empty_snippets_give_one_blank_row() {
    let rows = snippet_diff_lines("", "", 3);
    assert_eq!(rows.len(), 1);
    assert_eq!(rows[0].kind, DiffLineKind::Context);
    assert_eq!(rows[0].old_no, Some(3));
}

#[test]
fn long_snippets_are_dumped() {
    let old: String = (0..601).map(|i| format!("o{i}\n")).collect();
    let rows = snippet_diff_lines(&old, "n", 1);
    assert_eq!(rows.len(), 602);
    assert!(rows[..601].iter().all(|r| r.kind == DiffLineKind::Delete));
    assert_eq!(rows[601].kind, DiffLineKind::Insert);
    assert_eq!(rows[601].new_no, Some(1));
}

#[test]
fn diff_line_numbers_must_fit() {
    assert!(diff_numbers_fit("a\nb", "c", 1));
    assert!(diff_numbers_fit("a\nb", "c", u32::MAX - 2));
    assert!(!diff_numbers_fit("a\nb", "c", u32::MAX - 1));
    assert!(diff_numbers_fit("", "", u32::MAX));
}
