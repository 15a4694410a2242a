use htmx_git_client::diff::{
    diff_line_from_raw, file_header_label, fold_diff_lines, is_well_nested, restructure_diff,
    DiffError,
};
use htmx_git_client::{DeltaKind, DiffLineData, DiffLineType, RawDiffLine};

fn line(op: DiffLineType, text: &str) -> DiffLineData {
    DiffLineData {
        content: text.to_string(),
        file_path: None,
        operation: op,
        old_line_number: None,
        new_line_number: None,
    }
}

fn raw(op: DiffLineType, content: &[u8], status: DeltaKind, old: Option<&str>, new: Option<&str>) -> RawDiffLine {
    RawDiffLine {
        operation: op,
        content: content.to_vec(),
        old_line_number: Some(3),
        new_line_number: Some(4),
        status,
        old_path: old.map(|s| s.to_string()),
        new_path: new.map(|s| s.to_string()),
    }
}

#[test]
fn fold_builds_files_hunks_and_lines() {
    let lines = vec![
        line(DiffLineType::FileHeader, "[Modified] a.txt"),
        line(DiffLineType::HunkHeader, "@@ -1,2 +1,2 @@"),
        line(DiffLineType::Context, "keep"),
        line(DiffLineType::Deletion, "old"),
        line(DiffLineType::Addition, "new"),
        line(DiffLineType::HunkHeader, "@@ -9 +9 @@"),
        line(DiffLineType::AddEOFNL, "tail"),
        line(DiffLineType::FileHeader, "[Renamed] b -> c"),
        line(DiffLineType::FileHeader, "[Added] img.png"),
        line(DiffLineType::Binary, "Binary files differ"),
    ];
    assert!(is_well_nested(&lines));
    let files = fold_diff_lines(lines);
    assert_eq!(files.len(), 3);
    assert_eq!(files[0].file_diff.content, "[Modified] a.txt");
    assert_eq!(files[0].hunks.len(), 2);
    assert_eq!(files[0].hunks[0].hunk_diff.content, "@@ -1,2 +1,2 @@");
    let first: Vec<&str> = files[0].hunks[0].lines.iter().map(|l| l.content.as_str()).collect();
    assert_eq!(first, vec!["keep", "old", "new"]);
    assert_eq!(files[0].hunks[1].lines.len(), 1);
    assert_eq!(files[0].hunks[1].lines[0].operation, DiffLineType::AddEOFNL);
    assert_eq!(files[1].hunks.len(), 0);
    assert_eq!(files[2].hunks.len(), 0);
}

#[test]
fn fold_accounts_for_every_line() {
    let lines = vec![
        line(DiffLineType::FileHeader, "f1"),
        line(DiffLineType::HunkHeader, "h1"),
        line(DiffLineType::Addition, "a"),
        line(DiffLineType::Addition, "b"),
        line(DiffLineType::Binary, "bin"),
        line(DiffLineType::FileHeader, "f2"),
        line(DiffLineType::HunkHeader, "h2"),
        line(DiffLineType::Deletion, "c"),
        line(DiffLineType::HunkHeader, "h3"),
    ];
    let total = lines.len();
    let files = fold_diff_lines(lines);
    let hunks: usize = files.iter().map(|f| f.hunks.len()).sum();
    let content: usize = files.iter().flat_map(|f| f.hunks.iter()).map(|h| h.lines.len()).sum();
    assert_eq!(content + files.len() + hunks + 1, total);
    assert_eq!((files.len(), hunks, content), (2, 3, 3));
}

#[test]
fn empty_diff_has_no_files() {
    assert!(fold_diff_lines(Vec::new()).is_empty());
    assert!(restructure_diff(Vec::new()).unwrap().is_empty());
}

#[test]
fn pure_rename_is_a_file_without_hunks() {
    let files = restructure_diff(vec![raw(
        DiffLineType::FileHeader,
        b"diff --git a/x b/y\n",
        DeltaKind::Renamed,
        Some("x"),
        Some("y"),
    )])
    .unwrap();
    assert_eq!(files.len(), 1);
    assert_eq!(files[0].file_diff.content, "[Renamed] x -> y");
    assert_eq!(files[0].file_diff.file_path.as_deref(), Some("y"));
    assert!(files[0].hunks.is_empty());
}

#[test]
fn binary_marker_is_dropped() {
    let files = restructure_diff(vec![
        raw(DiffLineType::FileHeader, b"", DeltaKind::Added, None, Some("logo.png")),
        raw(DiffLineType::Binary, b"Binary files /dev/null and b/logo.png differ\n", DeltaKind::Added, None, Some("logo.png")),
    ])
    .unwrap();
    assert_eq!(files.len(), 1);
    assert_eq!(files[0].file_diff.content, "[Added] logo.png");
    assert!(files[0].hunks.is_empty());
}

#[test]
fn content_line_before_hunk_is_misplaced() {
    let r = restructure_diff(vec![
        raw(DiffLineType::FileHeader, b"", DeltaKind::Modified, Some("a"), Some("a")),
        raw(DiffLineType::Addition, b"x\n", DeltaKind::Modified, Some("a"), Some("a")),
    ]);
    assert!(matches!(r, Err(DiffError::MisplacedLine)));
}

#[test]
fn hunk_header_before_file_is_misplaced() {
    let r = restructure_diff(vec![raw(DiffLineType::HunkHeader, b"@@ -1 +1 @@\n", DeltaKind::Modified, Some("a"), Some("a"))]);
    assert!(matches!(r, Err(DiffError::MisplacedLine)));
    let lines = vec![line(DiffLineType::HunkHeader, "h")];
    assert!(!is_well_nested(&lines));
}

#[test]
fn restructure_converts_every_line() {
    let files = restructure_diff(vec![
        raw(DiffLineType::FileHeader, b"diff --git\n", DeltaKind::Modified, Some("src/a.rs"), Some("src/a.rs")),
        raw(DiffLineType::HunkHeader, b"@@ -1 +1 @@ fn main()\n", DeltaKind::Modified, Some("src/a.rs"), Some("src/a.rs")),
        raw(DiffLineType::Deletion, b"let x = 1;   \n", DeltaKind::Modified, Some("src/a.rs"), Some("src/a.rs")),
        raw(DiffLineType::Addition, &[0xff, 0xfe, b'\n'], DeltaKind::Modified, Some("src/a.rs"), Some("src/a.rs")),
    ])
    .unwrap();
    assert_eq!(files[0].file_diff.content, "[Modified] src/a.rs");
    assert_eq!(files[0].hunks[0].hunk_diff.content, "@@ -1 +1 @@ fn main()");
    assert_eq!(files[0].hunks[0].hunk_diff.file_path, None);
    let l = &files[0].hunks[0].lines;
    assert_eq!(l[0].content, "let x = 1;");
    assert_eq!(l[0].old_line_number, Some(3));
    assert_eq!(l[0].new_line_number, Some(4));
    assert_eq!(l[1].content, "FAILED TO PARSE");
}

#[test]
fn header_labels_by_change_kind() {
    let o = Some("old.txt".to_string());
    let n = Some("new.txt".to_string());
    assert_eq!(file_header_label(DeltaKind::Added, &o, &n), "[Added] new.txt");
    assert_eq!(file_header_label(DeltaKind::Deleted, &o, &n), "[Deleted] old.txt");
    assert_eq!(file_header_label(DeltaKind::Modified, &o, &n), "[Modified] new.txt");
    assert_eq!(file_header_label(DeltaKind::Renamed, &o, &n), "[Renamed] old.txt -> new.txt");
    assert_eq!(file_header_label(DeltaKind::Copied, &o, &n), "[Copied] old.txt -> new.txt");
    assert_eq!(file_header_label(DeltaKind::Ignored, &o, &n), "[Ignored] new.txt");
    assert_eq!(file_header_label(DeltaKind::Conflicted, &o, &n), "[Conflicted] new.txt");
    assert_eq!(file_header_label(DeltaKind::Typechange, &o, &n), "new.txt");
    assert_eq!(file_header_label(DeltaKind::Added, &None, &None), "[Added] ");
}

#[test]
fn only_file_headers_carry_a_path() {
    let header = diff_line_from_raw(raw(DiffLineType::FileHeader, b"x", DeltaKind::Deleted, Some("gone.c"), Some("gone.c")));
    assert_eq!(header.content, "[Deleted] gone.c");
    assert_eq!(header.file_path.as_deref(), Some("gone.c"));
    let context = diff_line_from_raw(raw(DiffLineType::ContextEOFNL, b"\\ No newline at end of file\n", DeltaKind::Deleted, Some("gone.c"), Some("gone.c")));
    assert_eq!(context.content, "\\ No newline at end of file");
    assert_eq!(context.file_path, None);
    assert_eq!(context.operation, DiffLineType::ContextEOFNL);
}
